//! The block parser: turning one recognized invocation line into a
//! structured [`CompilationCommand`].
//!
//! A Swift module invocation is a single physical line, normally of the
//! form `cd <dir> && swiftc -module-name M ... a.swift @files.SwiftFileList`.
//! The line is tokenized and the tokens are walked left to right:
//! `-module-name` and `-index-store-path` take the following token as
//! their value, tokens ending in `.swift` are explicit source files,
//! tokens ending in `.SwiftFileList` (with a leading `@` sigil stripped)
//! are file-list references, and every other token is retained as part of
//! the reconstructed command string.

use vstd::prelude::*;

use crate::db::{
    lemma_const_map_push, spec_cmd_db, spec_const_map, spec_lists_files, CompilationDatabase,
    FileListStore,
};
use crate::flags::{CompileFlags, FlagExtractError};
use crate::strutil::{
    join_spaces, spec_ends_with, spec_join_spaces, spec_strip_at, str_ends_with, str_eq, strip_at,
};
use crate::tokenize::{spec_tokenize, tokenize};

verus! {

/// Mathematical image of one [`CompilationCommand`].
pub ghost struct SpecCommand {
    pub name: Option<Seq<char>>,
    pub file: Option<Seq<char>>,
    pub directory: Seq<char>,
    pub command: Seq<char>,
    pub files: Option<Seq<Seq<char>>>,
    pub file_lists: Seq<Seq<char>>,
    pub output: Option<Seq<char>>,
    pub index_store_path: Option<Seq<char>>,
}

/// Accumulated result of the token walk.
pub ghost struct TokenWalk {
    pub module_name: Option<Seq<char>>,
    pub index_store_path: Option<Seq<char>>,
    pub files: Seq<Seq<char>>,
    pub file_lists: Seq<Seq<char>>,
    pub cmd_toks: Seq<Seq<char>>,
}

/// The empty accumulator the walk starts from.
pub open spec fn walk_empty() -> TokenWalk {
    TokenWalk {
        module_name: None,
        index_store_path: None,
        files: Seq::empty(),
        file_lists: Seq::empty(),
        cmd_toks: Seq::empty(),
    }
}

/// The walk over the tokens from position `i` on.  `None` means a flag
/// marker stood last, with no token left to be its value.
pub open spec fn spec_walk(toks: Seq<Seq<char>>, i: int, acc: TokenWalk) -> Option<TokenWalk>
    decreases toks.len() - i,
{
    if i < 0 || i >= toks.len() {
        Some(acc)
    } else {
        let t = toks[i];
        if t == "-module-name"@ {
            if i + 1 < toks.len() {
                spec_walk(toks, i + 2, TokenWalk { module_name: Some(toks[i + 1]), ..acc })
            } else {
                None
            }
        } else if t == "-index-store-path"@ {
            if i + 1 < toks.len() {
                spec_walk(toks, i + 2, TokenWalk { index_store_path: Some(toks[i + 1]), ..acc })
            } else {
                None
            }
        } else if spec_ends_with(t, ".swift"@) {
            spec_walk(toks, i + 1, TokenWalk { files: acc.files.push(t), ..acc })
        } else if spec_ends_with(t, ".SwiftFileList"@) {
            spec_walk(toks, i + 1, TokenWalk { file_lists: acc.file_lists.push(spec_strip_at(t)), ..acc })
        } else {
            spec_walk(toks, i + 1, TokenWalk { cmd_toks: acc.cmd_toks.push(t), ..acc })
        }
    }
}

/// The working directory read off the tokens: the token after a leading
/// `cd`, or empty.
pub open spec fn spec_directory_of(toks: Seq<Seq<char>>) -> Seq<char> {
    if toks.len() >= 2 && toks[0] == "cd"@ {
        toks[1]
    } else {
        Seq::empty()
    }
}

/// The command parsed from one line: `None` when the line does not
/// tokenize or ends in a dangling flag marker.
pub open spec fn spec_parse_line(line: Seq<char>) -> Option<SpecCommand> {
    match spec_tokenize(line) {
        None => None,
        Some(toks) => match spec_walk(toks, 0, walk_empty()) {
            None => None,
            Some(w) => Some(
                SpecCommand {
                    name: w.module_name,
                    file: None,
                    directory: spec_directory_of(toks),
                    command: spec_join_spaces(w.cmd_toks),
                    files: if w.files.len() == 0 {
                        None
                    } else {
                        Some(w.files)
                    },
                    file_lists: w.file_lists,
                    output: None,
                    index_store_path: w.index_store_path,
                },
            ),
        },
    }
}

/// A word that the walk retains in the command string: no flag marker,
/// no source file, no file-list reference.
pub open spec fn spec_plain_word(t: Seq<char>) -> bool {
    t != "-module-name"@ && t != "-index-store-path"@ && !spec_ends_with(t, ".swift"@)
        && !spec_ends_with(t, ".SwiftFileList"@)
}

/// True when every token from position `i` on is an explicit source file
/// or a file-list reference.
pub open spec fn spec_file_or_list_tail(toks: Seq<Seq<char>>, i: int) -> bool {
    forall|k: int|
        i <= k < toks.len() ==> #[trigger] toks[k] != "-module-name"@ && toks[k]
            != "-index-store-path"@ && (spec_ends_with(toks[k], ".swift"@) || spec_ends_with(
            toks[k],
            ".SwiftFileList"@,
        ))
}

/// The source files among the tokens from position `i` on.
pub open spec fn spec_tail_files(toks: Seq<Seq<char>>, i: int) -> Seq<Seq<char>>
    decreases toks.len() - i,
{
    if i < 0 || i >= toks.len() {
        Seq::empty()
    } else if spec_ends_with(toks[i], ".swift"@) {
        seq![toks[i]] + spec_tail_files(toks, i + 1)
    } else {
        spec_tail_files(toks, i + 1)
    }
}

/// The file-list references among the tokens from position `i` on, their
/// sigil stripped.
pub open spec fn spec_tail_lists(toks: Seq<Seq<char>>, i: int) -> Seq<Seq<char>>
    decreases toks.len() - i,
{
    if i < 0 || i >= toks.len() {
        Seq::empty()
    } else if !spec_ends_with(toks[i], ".swift"@) && spec_ends_with(toks[i], ".SwiftFileList"@) {
        seq![spec_strip_at(toks[i])] + spec_tail_lists(toks, i + 1)
    } else {
        spec_tail_lists(toks, i + 1)
    }
}

/// Walking a tail of source files and file-list references appends
/// exactly those to the accumulator and touches nothing else.
proof fn lemma_walk_tail(toks: Seq<Seq<char>>, i: int, acc: TokenWalk)
    requires
        0 <= i <= toks.len(),
        spec_file_or_list_tail(toks, i),
    ensures
        spec_walk(toks, i, acc) == Some(
            TokenWalk {
                files: acc.files + spec_tail_files(toks, i),
                file_lists: acc.file_lists + spec_tail_lists(toks, i),
                ..acc
            },
        ),
    decreases toks.len() - i,
{
    if i == toks.len() {
        assert(acc.files + spec_tail_files(toks, i) =~= acc.files);
        assert(acc.file_lists + spec_tail_lists(toks, i) =~= acc.file_lists);
    } else {
        let t = toks[i];
        if spec_ends_with(t, ".swift"@) {
            let acc2 = TokenWalk { files: acc.files.push(t), ..acc };
            lemma_walk_tail(toks, i + 1, acc2);
            assert(acc.files.push(t) + spec_tail_files(toks, i + 1) =~= acc.files + (seq![t]
                + spec_tail_files(toks, i + 1)));
        } else {
            let acc2 = TokenWalk { file_lists: acc.file_lists.push(spec_strip_at(t)), ..acc };
            lemma_walk_tail(toks, i + 1, acc2);
            assert(acc.file_lists.push(spec_strip_at(t)) + spec_tail_lists(toks, i + 1)
                =~= acc.file_lists + (seq![spec_strip_at(t)] + spec_tail_lists(toks, i + 1)));
        }
    }
}

/// The fixed head of a well-formed Swift module invocation:
/// `cd <dir> && swiftc -module-name M -index-store-path P`.
pub open spec fn spec_swift_head(d: Seq<char>, m: Seq<char>, p: Seq<char>) -> Seq<Seq<char>> {
    seq!["cd"@, d, "&&"@, "swiftc"@, "-module-name"@, m, "-index-store-path"@, p]
}

/// A well-formed Swift module invocation line parses to the expected
/// command: the directory after `cd`, the module name and index-store
/// path after their markers, the `.swift` tokens as files, and the
/// `.SwiftFileList` tokens, sigils stripped, as file lists.
pub proof fn lemma_swift_invocation_shape(
    line: Seq<char>,
    d: Seq<char>,
    m: Seq<char>,
    p: Seq<char>,
    tail: Seq<Seq<char>>,
)
    requires
        spec_tokenize(line) == Some(spec_swift_head(d, m, p) + tail),
        spec_plain_word(d),
        spec_file_or_list_tail(spec_swift_head(d, m, p) + tail, 8),
    ensures
        spec_parse_line(line) == Some(
            SpecCommand {
                name: Some(m),
                file: None,
                directory: d,
                command: spec_join_spaces(seq!["cd"@, d, "&&"@, "swiftc"@]),
                files: if spec_tail_files(spec_swift_head(d, m, p) + tail, 8).len() == 0 {
                    None
                } else {
                    Some(spec_tail_files(spec_swift_head(d, m, p) + tail, 8))
                },
                file_lists: spec_tail_lists(spec_swift_head(d, m, p) + tail, 8),
                output: None,
                index_store_path: Some(p),
            },
        ),
{
    reveal_strlit("cd");
    reveal_strlit("&&");
    reveal_strlit("swiftc");
    reveal_strlit("-module-name");
    reveal_strlit("-index-store-path");
    reveal_strlit(".swift");
    reveal_strlit(".SwiftFileList");
    let toks = spec_swift_head(d, m, p) + tail;
    assert(toks[0] == "cd"@);
    assert(toks[1] == d);
    assert(toks[2] == "&&"@);
    assert(toks[3] == "swiftc"@);
    assert(toks[4] == "-module-name"@);
    assert(toks[5] == m);
    assert(toks[6] == "-index-store-path"@);
    assert(toks[7] == p);
    assert(spec_plain_word("cd"@)) by {
        assert("cd"@.len() == 2);
    }
    assert(spec_plain_word("&&"@)) by {
        assert("&&"@.len() == 2);
    }
    assert(spec_plain_word("swiftc"@)) by {
        assert("swiftc"@.len() == 6);
        assert(!spec_ends_with("swiftc"@, ".swift"@)) by {
            assert("swiftc"@[0] == 's');
            assert(".swift"@[0] == '.');
            if spec_ends_with("swiftc"@, ".swift"@) {
                assert("swiftc"@.subrange(0, 6)[0] == 's');
            }
        }
    }
    let w0 = walk_empty();
    let w1 = TokenWalk { cmd_toks: w0.cmd_toks.push(toks[0]), ..w0 };
    let w2 = TokenWalk { cmd_toks: w1.cmd_toks.push(toks[1]), ..w1 };
    let w3 = TokenWalk { cmd_toks: w2.cmd_toks.push(toks[2]), ..w2 };
    let w4 = TokenWalk { cmd_toks: w3.cmd_toks.push(toks[3]), ..w3 };
    let w6 = TokenWalk { module_name: Some(toks[5]), ..w4 };
    let w8 = TokenWalk { index_store_path: Some(toks[7]), ..w6 };
    assert(spec_walk(toks, 0, w0) == spec_walk(toks, 1, w1));
    assert(spec_walk(toks, 1, w1) == spec_walk(toks, 2, w2));
    assert(spec_walk(toks, 2, w2) == spec_walk(toks, 3, w3));
    assert(spec_walk(toks, 3, w3) == spec_walk(toks, 4, w4));
    assert(spec_walk(toks, 4, w4) == spec_walk(toks, 6, w6));
    assert(spec_walk(toks, 6, w6) == spec_walk(toks, 8, w8));
    lemma_walk_tail(toks, 8, w8);
    let wf = spec_walk(toks, 0, w0)->0;
    assert(wf.files =~= spec_tail_files(toks, 8));
    assert(wf.file_lists =~= spec_tail_lists(toks, 8));
    assert(wf.cmd_toks =~= seq!["cd"@, d, "&&"@, "swiftc"@]);
    assert(spec_directory_of(toks) == d);
}

/// Failure of the block parser.
#[derive(Debug, Clone, Copy, PartialEq, Eq, Structural)]
pub enum BlockParseError {
    /// The cursor stands past the last log line.
    MissingLine,
    /// The line has malformed quoting.
    Tokenize,
    /// A flag marker stood last on the line, with no value after it.
    TrailingFlag,
}

/// One recognized compiler invocation of the build log.
#[derive(Debug, Clone)]
pub struct CompilationCommand {
    /// Module name: the value of `-module-name`, if present.
    pub name: Option<String>,
    /// The path of the main file for a single-file compilation, if any.
    pub file: Option<String>,
    /// The working directory of the invocation.
    pub directory: String,
    /// Canonical reconstruction of the invocation, the retained tokens
    /// re-joined with single spaces.
    pub command: String,
    /// Explicit source files named on the invocation.
    pub files: Option<Vec<String>>,
    /// Paths of the referenced file lists, their `@` sigil stripped.
    pub file_lists: Vec<String>,
    /// The declared name of the build output, if any.
    pub output: Option<String>,
    /// The value of `-index-store-path`, kept for the caller.
    pub index_store_path: Option<String>,
}

impl View for CompilationCommand {
    type V = SpecCommand;

    open spec fn view(&self) -> SpecCommand {
        SpecCommand {
            name: self.name.deep_view(),
            file: self.file.deep_view(),
            directory: self.directory@,
            command: self.command@,
            files: self.files.deep_view(),
            file_lists: self.file_lists.deep_view(),
            output: self.output.deep_view(),
            index_store_path: self.index_store_path.deep_view(),
        }
    }
}

impl DeepView for CompilationCommand {
    type V = SpecCommand;

    open spec fn deep_view(&self) -> SpecCommand {
        self.view()
    }
}

impl CompilationCommand {
    /// Parses the Swift module invocation standing at `cursor` in the log.
    pub fn swift_module(lines: &Vec<String>, cursor: usize) -> (r: Result<
        CompilationCommand,
        BlockParseError,
    >)
        ensures
            match r {
                Ok(c) => cursor < lines.len() && spec_parse_line(lines.deep_view()[cursor as int])
                    == Some(c@),
                Err(e) => match e {
                    BlockParseError::MissingLine => cursor >= lines.len(),
                    BlockParseError::Tokenize => cursor < lines.len() && spec_tokenize(
                        lines.deep_view()[cursor as int],
                    ) is None,
                    BlockParseError::TrailingFlag => cursor < lines.len() && spec_tokenize(
                        lines.deep_view()[cursor as int],
                    ) is Some && spec_parse_line(lines.deep_view()[cursor as int]) is None,
                },
            },
    {
        if cursor >= lines.len() {
            return Err(BlockParseError::MissingLine);
        }
        let line = &lines[cursor];
        let toks = match tokenize(line.as_str()) {
            Ok(t) => t,
            Err(_) => {
                return Err(BlockParseError::Tokenize);
            },
        };
        let ghost tv = toks.deep_view();
        let directory = if toks.len() >= 2 && str_eq(toks[0].as_str(), "cd") {
            toks[1].clone()
        } else {
            String::new()
        };
        proof {
            assert(directory@ == spec_directory_of(tv));
        }
        let mut module_name: Option<String> = None;
        let mut index_store_path: Option<String> = None;
        let mut files: Vec<String> = Vec::new();
        let mut file_lists: Vec<String> = Vec::new();
        let mut cmd_toks: Vec<String> = Vec::new();
        let mut i: usize = 0;
        proof {
            assert(files.deep_view() =~= Seq::<Seq<char>>::empty());
            assert(file_lists.deep_view() =~= Seq::<Seq<char>>::empty());
            assert(cmd_toks.deep_view() =~= Seq::<Seq<char>>::empty());
        }
        #[verifier::loop_isolation(false)]
        while i < toks.len()
            invariant
                i <= toks.len(),
                tv == toks.deep_view(),
                spec_walk(
                    tv,
                    i as int,
                    (TokenWalk {
                        module_name: module_name.deep_view(),
                        index_store_path: index_store_path.deep_view(),
                        files: files.deep_view(),
                        file_lists: file_lists.deep_view(),
                        cmd_toks: cmd_toks.deep_view(),
                    }),
                ) == spec_walk(tv, 0, walk_empty()),
            decreases toks.len() - i,
        {
            let ghost files0 = files.deep_view();
            let ghost lists0 = file_lists.deep_view();
            let ghost cmd0 = cmd_toks.deep_view();
            let t = &toks[i];
            if str_eq(t.as_str(), "-module-name") {
                if i + 1 < toks.len() {
                    module_name = Some(toks[i + 1].clone());
                    i = i + 2;
                } else {
                    proof {
                        let acc = (TokenWalk {
                            module_name: module_name.deep_view(),
                            index_store_path: index_store_path.deep_view(),
                            files: files.deep_view(),
                            file_lists: file_lists.deep_view(),
                            cmd_toks: cmd_toks.deep_view(),
                        });
                        assert(spec_walk(tv, i as int, acc) is None);
                        assert(spec_walk(tv, 0, walk_empty()) is None);
                    }
                    return Err(BlockParseError::TrailingFlag);
                }
            } else if str_eq(t.as_str(), "-index-store-path") {
                if i + 1 < toks.len() {
                    index_store_path = Some(toks[i + 1].clone());
                    i = i + 2;
                } else {
                    proof {
                        let acc = (TokenWalk {
                            module_name: module_name.deep_view(),
                            index_store_path: index_store_path.deep_view(),
                            files: files.deep_view(),
                            file_lists: file_lists.deep_view(),
                            cmd_toks: cmd_toks.deep_view(),
                        });
                        assert(spec_walk(tv, i as int, acc) is None);
                        assert(spec_walk(tv, 0, walk_empty()) is None);
                    }
                    return Err(BlockParseError::TrailingFlag);
                }
            } else if str_ends_with(t.as_str(), ".swift") {
                let copy = toks[i].clone();
                files.push(copy);
                proof {
                    assert(files.deep_view() =~= files0.push(tv[i as int]));
                }
                i = i + 1;
            } else if str_ends_with(t.as_str(), ".SwiftFileList") {
                let stripped = strip_at(toks[i].as_str());
                file_lists.push(stripped);
                proof {
                    assert(file_lists.deep_view() =~= lists0.push(spec_strip_at(tv[i as int])));
                }
                i = i + 1;
            } else {
                let copy = toks[i].clone();
                cmd_toks.push(copy);
                proof {
                    assert(cmd_toks.deep_view() =~= cmd0.push(tv[i as int]));
                }
                i = i + 1;
            }
        }
        let command = join_spaces(&cmd_toks);
        let files_opt: Option<Vec<String>> = if files.len() == 0 {
            None
        } else {
            Some(files)
        };
        let c = CompilationCommand {
            name: module_name,
            file: None,
            directory,
            command,
            files: files_opt,
            file_lists,
            output: None,
            index_store_path,
        };
        Ok(c)
    }

    /// The map of every file this command contributes, each bound to the
    /// command's flag set.  Fails exactly when the command string has
    /// malformed quoting; a file list missing from the store contributes
    /// nothing.
    pub fn compile_flags(&self, lists: &FileListStore) -> (r: Result<
        CompilationDatabase,
        FlagExtractError,
    >)
        ensures
            match r {
                Ok(db) => spec_tokenize(self.command@) is Some && db.wf() && db@ == spec_cmd_db(
                    self@,
                    lists@,
                ),
                Err(_) => spec_tokenize(self.command@) is None,
            },
    {
        let flags = match CompileFlags::from_command(self.command.as_str()) {
            Ok(f) => f,
            Err(e) => {
                return Err(e);
            },
        };
        let ghost st = lists@;
        let ghost fv = crate::flags::spec_flags_of(self.command@);
        let mut db = CompilationDatabase::new();
        let ghost lv = self.file_lists.deep_view();
        let mut i: usize = 0;
        proof {
            assert(lv.subrange(0, 0) =~= Seq::<Seq<char>>::empty());
        }
        #[verifier::loop_isolation(false)]
        while i < self.file_lists.len()
            invariant
                i <= self.file_lists.len(),
                db.wf(),
                db@ == spec_const_map(spec_lists_files(lv.subrange(0, i as int), st), fv),
            decreases self.file_lists.len() - i,
        {
            let ghost done = spec_lists_files(lv.subrange(0, i as int), st);
            let ghost cur = lv.subrange(0, i as int + 1);
            proof {
                assert(cur.drop_last() =~= lv.subrange(0, i as int));
                assert(cur.last() == lv[i as int]);
            }
            match lists.lookup(self.file_lists[i].as_str()) {
                Some(files) => {
                    let ghost fsv = files.deep_view();
                    let mut j: usize = 0;
                    proof {
                        assert(done + fsv.subrange(0, 0) =~= done);
                    }
                    #[verifier::loop_isolation(false)]
                    while j < files.len()
                        invariant
                            j <= files.len(),
                            db.wf(),
                            db@ == spec_const_map(done + fsv.subrange(0, j as int), fv),
                        decreases files.len() - j,
                    {
                        let f = files[j].clone();
                        db.insert(f, flags.clone());
                        proof {
                            lemma_const_map_push(done + fsv.subrange(0, j as int), fv, fsv[j as int]);
                            assert((done + fsv.subrange(0, j as int)).push(fsv[j as int]) =~= done
                                + fsv.subrange(0, j as int + 1));
                        }
                        j = j + 1;
                    }
                    proof {
                        assert(fsv.subrange(0, fsv.len() as int) =~= fsv);
                        assert(done + fsv =~= spec_lists_files(cur, st));
                    }
                },
                None => {
                    proof {
                        assert(done + Seq::<Seq<char>>::empty() =~= done);
                        assert(spec_lists_files(cur, st) =~= done);
                    }
                },
            }
            i = i + 1;
        }
        let ghost listed = spec_lists_files(lv, st);
        proof {
            assert(lv.subrange(0, lv.len() as int) =~= lv);
        }
        match &self.files {
            Some(fs) => {
                let ghost fsv = fs.deep_view();
                let mut j: usize = 0;
                proof {
                    assert(listed + fsv.subrange(0, 0) =~= listed);
                }
                #[verifier::loop_isolation(false)]
                while j < fs.len()
                    invariant
                        j <= fs.len(),
                        db.wf(),
                        db@ == spec_const_map(listed + fsv.subrange(0, j as int), fv),
                    decreases fs.len() - j,
                {
                    let f = fs[j].clone();
                    db.insert(f, flags.clone());
                    proof {
                        lemma_const_map_push(listed + fsv.subrange(0, j as int), fv, fsv[j as int]);
                        assert((listed + fsv.subrange(0, j as int)).push(fsv[j as int]) =~= listed
                            + fsv.subrange(0, j as int + 1));
                    }
                    j = j + 1;
                }
                proof {
                    assert(fsv.subrange(0, fsv.len() as int) =~= fsv);
                }
            },
            None => {
                proof {
                    assert(listed + Seq::<Seq<char>>::empty() =~= listed);
                }
            },
        }
        let ghost explicit = (match self@.files {
            Some(fs) => fs,
            None => Seq::<Seq<char>>::empty(),
        });
        match &self.file {
            Some(f) => {
                db.insert(f.clone(), flags.clone());
                proof {
                    lemma_const_map_push(listed + explicit, fv, self@.file->0);
                    assert((listed + explicit).push(self@.file->0) =~= listed + explicit + seq![
                        self@.file->0,
                    ]);
                }
            },
            None => {
                proof {
                    assert(listed + explicit + Seq::<Seq<char>>::empty() =~= listed + explicit);
                }
            },
        }
        Ok(db)
    }
}

} // verus!
