//! Bookkeeping for regenerated companion files.
//!
//! A regenerated file keeps its hand-written head: every line up to and
//! including the first line that carries the generation marker (the first
//! line when no line carries it).  The constant files for the editor
//! front ends are assembled from that head and the injected
//! configuration values.

use vstd::prelude::*;

use crate::strutil::{spec_contains, str_contains};

verus! {

/// `s` split on newlines; like the splitting the callers rely on, it
/// keeps empty segments and always yields at least one segment.
pub open spec fn spec_split_acc(s: Seq<char>, cur: Seq<char>, acc: Seq<Seq<char>>) -> Seq<
    Seq<char>,
>
    decreases s.len(),
{
    if s.len() == 0 {
        acc.push(cur)
    } else if s[0] == '\n' {
        spec_split_acc(s.drop_first(), Seq::empty(), acc.push(cur))
    } else {
        spec_split_acc(s.drop_first(), cur.push(s[0]), acc)
    }
}

/// The lines of `s`.
pub open spec fn spec_split_lines(s: Seq<char>) -> Seq<Seq<char>> {
    spec_split_acc(s, Seq::empty(), Seq::empty())
}

/// Splits `content` on newlines.
pub fn split_lines(content: &str) -> (r: Vec<String>)
    ensures
        r.deep_view() == spec_split_lines(content@),
        r.len() > 0,
{
    let n = content.unicode_len();
    let mut i: usize = 0;
    let mut cur = String::new();
    let mut acc: Vec<String> = Vec::new();
    proof {
        assert(content@.subrange(0, n as int) =~= content@);
        assert(acc.deep_view() =~= Seq::<Seq<char>>::empty());
    }
    #[verifier::loop_isolation(false)]
    while i < n
        invariant
            i <= n,
            n == content@.len(),
            spec_split_acc(content@.subrange(i as int, n as int), cur@, acc.deep_view())
                == spec_split_lines(content@),
        decreases n - i,
    {
        let ghost pre = content@.subrange(i as int, n as int);
        let ghost cur0 = cur@;
        let ghost acc0 = acc.deep_view();
        let c = content.get_char(i);
        proof {
            assert(pre[0] == content@[i as int]);
            assert(pre.drop_first() =~= content@.subrange(i as int + 1, n as int));
        }
        if c == '\n' {
            acc.push(cur);
            cur = String::new();
            proof {
                assert(acc.deep_view() =~= acc0.push(cur0));
            }
        } else {
            let piece = content.substring_char(i, i + 1);
            proof {
                assert(piece@ =~= seq![content@[i as int]]);
            }
            cur.append(piece);
            proof {
                assert(cur@ =~= cur0.push(content@[i as int]));
            }
        }
        i = i + 1;
    }
    proof {
        assert(content@.subrange(n as int, n as int) =~= Seq::<char>::empty());
    }
    let ghost accv = acc.deep_view();
    let ghost curv = cur@;
    acc.push(cur);
    proof {
        assert(acc.deep_view() =~= accv.push(curv));
    }
    acc
}

/// The tokens joined with single newlines.
pub open spec fn spec_join_nl(toks: Seq<Seq<char>>) -> Seq<char>
    decreases toks.len(),
{
    if toks.len() == 0 {
        Seq::empty()
    } else if toks.len() == 1 {
        toks[0]
    } else {
        spec_join_nl(toks.drop_last()) + seq!['\n'] + toks.last()
    }
}

/// Joins the lines with single newlines.
pub fn join_lines(lines: &Vec<String>) -> (r: String)
    ensures
        r@ == spec_join_nl(lines.deep_view()),
{
    let mut r = String::new();
    let mut i: usize = 0;
    #[verifier::loop_isolation(false)]
    while i < lines.len()
        invariant
            i <= lines.len(),
            r@ == spec_join_nl(lines.deep_view().subrange(0, i as int)),
        decreases lines.len() - i,
    {
        if i > 0 {
            r.append("\n");
        }
        r.append(lines[i].as_str());
        proof {
            reveal_strlit("\n");
            let dv = lines.deep_view();
            let cur = dv.subrange(0, i as int + 1);
            assert(cur.drop_last() =~= dv.subrange(0, i as int));
            assert(cur.last() == dv[i as int]);
            if i == 0 {
                assert(r@ =~= spec_join_nl(cur));
            } else {
                assert("\n"@ =~= seq!['\n']);
                assert(r@ =~= spec_join_nl(dv.subrange(0, i as int)) + seq!['\n'] + dv[i as int]);
            }
        }
        i = i + 1;
    }
    proof {
        assert(lines.deep_view().subrange(0, lines.len() as int) =~= lines.deep_view());
    }
    r
}

/// The first line carrying the generation marker, from position `i` on.
pub open spec fn spec_first_marker(ls: Seq<Seq<char>>, i: int) -> Option<int>
    decreases ls.len() - i,
{
    if i < 0 || i >= ls.len() {
        None
    } else if spec_contains(ls[i], "AUTOGENERATED"@) {
        Some(i)
    } else {
        spec_first_marker(ls, i + 1)
    }
}

/// The line whose head is preserved: the first marker line, or the very
/// first line when no line carries the marker.
pub open spec fn spec_marker_line(ls: Seq<Seq<char>>) -> int {
    match spec_first_marker(ls, 0) {
        Some(m) => m,
        None => 0,
    }
}

/// Finds the first marker line, or the first line.
fn marker_line(lines: &Vec<String>) -> (r: usize)
    requires
        lines.len() > 0,
    ensures
        r == spec_marker_line(lines.deep_view()),
        r < lines.len(),
{
    let ghost lv = lines.deep_view();
    let mut i: usize = 0;
    #[verifier::loop_isolation(false)]
    while i < lines.len()
        invariant
            i <= lines.len(),
            spec_first_marker(lv, i as int) == spec_first_marker(lv, 0),
        decreases lines.len() - i,
    {
        if str_contains(lines[i].as_str(), "AUTOGENERATED") {
            return i;
        }
        i = i + 1;
    }
    0
}

/// What a regenerated file keeps of its previous `content`: the lines up
/// to and including the marker line, and a trailing newline.
pub open spec fn spec_preserved_header(content: Seq<char>) -> Seq<char> {
    let ls = spec_split_lines(content);
    spec_join_nl(ls.subrange(0, spec_marker_line(ls) + 1)) + seq!['\n']
}

/// The hand-written head of the previous `content`, to stand above the
/// regenerated part.
pub fn preserved_header(content: &str) -> (r: String)
    ensures
        r@ == spec_preserved_header(content@),
{
    let lines = split_lines(content);
    let marker = marker_line(&lines);
    let mut head: Vec<String> = Vec::new();
    let mut i: usize = 0;
    proof {
        assert(head.deep_view() =~= lines.deep_view().subrange(0, 0));
    }
    #[verifier::loop_isolation(false)]
    while i <= marker
        invariant
            i <= marker + 1,
            marker < lines.len(),
            head.deep_view() == lines.deep_view().subrange(0, i as int),
        decreases marker + 1 - i,
    {
        let ghost head0 = head.deep_view();
        let copy = lines[i].clone();
        head.push(copy);
        proof {
            assert(head.deep_view() =~= head0.push(lines.deep_view()[i as int]));
            assert(head.deep_view() =~= lines.deep_view().subrange(0, i as int + 1));
        }
        i = i + 1;
    }
    let mut r = join_lines(&head);
    r.append("\n");
    proof {
        reveal_strlit("\n");
        assert("\n"@ =~= seq!['\n']);
    }
    r
}

/// The TypeScript constants file: the preserved head followed by the
/// exported socket address and binary root.
pub fn ts_constants(header: &str, sock_addr: &str, bin_root: &str) -> (r: String)
    ensures
        r@ == header@ + "export const XBASE_SOCK_ADDR = '"@ + sock_addr@ + "'\n"@
            + "export const XBASE_BIN_ROOT = '"@ + bin_root@
            + "'.replace('$HOME', process.env.HOME!)\n"@,
{
    let mut r = String::from_str(header);
    r.append("export const XBASE_SOCK_ADDR = '");
    r.append(sock_addr);
    r.append("'\n");
    r.append("export const XBASE_BIN_ROOT = '");
    r.append(bin_root);
    r.append("'.replace('$HOME', process.env.HOME!)\n");
    r
}

/// The Lua constants file: the preserved head, the two constants, and
/// the module return.
pub fn lua_constants(header: &str, sock_addr: &str, bin_root: &str) -> (r: String)
    ensures
        r@ == header@ + "M.SOCK_ADDR = '"@ + sock_addr@ + "'\n"@ + "M.BIN_ROOT = string.gsub('"@
            + bin_root@ + "', '$HOME', vim.env.HOME)\n"@ + "\n\nreturn M"@,
{
    let mut r = String::from_str(header);
    r.append("M.SOCK_ADDR = '");
    r.append(sock_addr);
    r.append("'\n");
    r.append("M.BIN_ROOT = string.gsub('");
    r.append(bin_root);
    r.append("', '$HOME', vim.env.HOME)\n");
    r.append("\n\nreturn M");
    r
}

} // verus!
