use xbase::genfile::{join_lines, lua_constants, preserved_header, split_lines, ts_constants};

fn strings(v: &[&str]) -> Vec<String> {
    v.iter().map(|s| s.to_string()).collect()
}

#[test]
fn split_keeps_empty_segments() {
    assert_eq!(split_lines("a\nb\n"), strings(&["a", "b", ""]));
    assert_eq!(split_lines(""), strings(&[""]));
    assert_eq!(split_lines("\n"), strings(&["", ""]));
}

#[test]
fn join_is_inverse_of_split_on_its_output() {
    let lines = split_lines("a\n\nbc");
    assert_eq!(join_lines(&lines), "a\n\nbc");
}

#[test]
fn header_keeps_lines_through_the_marker() {
    let content = "// hand written\n// AUTOGENERATED below\nold generated stuff\n";
    assert_eq!(
        preserved_header(content),
        "// hand written\n// AUTOGENERATED below\n"
    );
}

#[test]
fn header_without_marker_keeps_the_first_line() {
    assert_eq!(preserved_header("abc\ndef"), "abc\n");
    assert_eq!(preserved_header(""), "\n");
}

#[test]
fn ts_constants_are_appended_to_the_header() {
    let out = ts_constants("H\n", "/tmp/x.socket", "$HOME/.x");
    assert_eq!(
        out,
        "H\nexport const XBASE_SOCK_ADDR = '/tmp/x.socket'\n\
         export const XBASE_BIN_ROOT = '$HOME/.x'.replace('$HOME', process.env.HOME!)\n"
    );
}

#[test]
fn lua_constants_are_appended_to_the_header() {
    let out = lua_constants("H\n", "/tmp/x.socket", "$HOME/.x");
    assert_eq!(
        out,
        "H\nM.SOCK_ADDR = '/tmp/x.socket'\n\
         M.BIN_ROOT = string.gsub('$HOME/.x', '$HOME', vim.env.HOME)\n\n\nreturn M"
    );
}
