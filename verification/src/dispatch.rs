//! The pattern dispatcher: the scan over the log lines.
//!
//! The cursor starts at the first line and strictly increases at every
//! step, so the scan terminates on every input.  A line matching the
//! Swift module signature is handed to the block parser; on success the
//! parsed command is recorded and the cursor advances past the consumed
//! line (the invocation is a single line), on failure the line is
//! skipped.  Any other line is skipped as well.

use vstd::prelude::*;

use crate::command::{spec_parse_line, CompilationCommand, SpecCommand};
use crate::strutil::{spec_contains, str_contains};

verus! {

/// True when `line` looks like a Swift module compile invocation: it
/// names the compiler and carries a module name flag.
pub open spec fn spec_is_signature(line: Seq<char>) -> bool {
    spec_contains(line, "swiftc"@) && spec_contains(line, "-module-name"@)
}

/// Tests one log line against the Swift module signature.
pub fn is_swift_module_signature(line: &str) -> (r: bool)
    ensures
        r == spec_is_signature(line@),
{
    str_contains(line, "swiftc") && str_contains(line, "-module-name")
}

/// The commands recognized in `lines` from cursor `c` on, in scan order:
/// a line that matches the signature and parses contributes its command,
/// every other line contributes nothing.
pub open spec fn spec_dispatch(lines: Seq<Seq<char>>, c: int) -> Seq<SpecCommand>
    decreases lines.len() - c,
{
    if c < 0 || c >= lines.len() {
        Seq::empty()
    } else {
        let rest = spec_dispatch(lines, c + 1);
        if spec_is_signature(lines[c]) && spec_parse_line(lines[c]) is Some {
            seq![spec_parse_line(lines[c])->0] + rest
        } else {
            rest
        }
    }
}

/// Scans the whole log and returns every recognized invocation, in scan
/// order.  The cursor strictly increases at each step, so the scan
/// terminates on every input.
pub fn parse_log(lines: &Vec<String>) -> (cmds: Vec<CompilationCommand>)
    ensures
        cmds.deep_view() == spec_dispatch(lines.deep_view(), 0),
{
    let ghost lv = lines.deep_view();
    let mut cmds: Vec<CompilationCommand> = Vec::new();
    let mut c: usize = 0;
    proof {
        assert(cmds.deep_view() =~= Seq::<SpecCommand>::empty());
        assert(Seq::<SpecCommand>::empty() + spec_dispatch(lv, 0) =~= spec_dispatch(lv, 0));
    }
    #[verifier::loop_isolation(false)]
    while c < lines.len()
        invariant
            c <= lines.len(),
            cmds.deep_view() + spec_dispatch(lv, c as int) == spec_dispatch(lv, 0),
        decreases lines.len() - c,
    {
        let ghost cmds0 = cmds.deep_view();
        if is_swift_module_signature(lines[c].as_str()) {
            match CompilationCommand::swift_module(lines, c) {
                Ok(cmd) => {
                    proof {
                        assert(spec_parse_line(lv[c as int]) == Some(cmd@));
                    }
                    cmds.push(cmd);
                    proof {
                        assert(cmds.deep_view() =~= cmds0.push(cmds.deep_view().last()));
                        assert(cmds.deep_view() + spec_dispatch(lv, c as int + 1) =~= cmds0 + (seq![
                            cmds.deep_view().last(),
                        ] + spec_dispatch(lv, c as int + 1)));
                    }
                },
                Err(_) => {},
            }
        }
        c = c + 1;
    }
    cmds
}

} // verus!
