//! The compilation database and its assembly.
//!
//! A [`FileListStore`] holds the resolved contents of the referenced file
//! lists (reading them from disk is the caller's side of the boundary; a
//! path that is missing from the store stands for a list that could not be
//! read).  A [`CompilationDatabase`] maps each file path to the flag set
//! of the invocation that compiled it; when several invocations reference
//! the same file, the invocation latest in scan order wins.

use vstd::prelude::*;

use crate::command::{CompilationCommand, SpecCommand};
use crate::flags::{spec_flags_of, CompileFlags};
use crate::genfile::{spec_split_lines, split_lines};
use crate::strutil::{lemma_contains_push, spec_trim, str_eq, trim};
use crate::tokenize::spec_tokenize;

verus! {

/// Mathematical image of one database entry.
pub ghost struct SpecDbEntry {
    pub file: Seq<char>,
    pub flags: Seq<Seq<char>>,
}

/// One `file -> flags` pair of the database.
#[derive(Debug)]
pub struct DbEntry {
    /// The file path.
    pub file: String,
    /// The flag set of the invocation that compiled it.
    pub flags: CompileFlags,
}

impl View for DbEntry {
    type V = SpecDbEntry;

    open spec fn view(&self) -> SpecDbEntry {
        SpecDbEntry { file: self.file@, flags: self.flags@ }
    }
}

impl DeepView for DbEntry {
    type V = SpecDbEntry;

    open spec fn deep_view(&self) -> SpecDbEntry {
        self.view()
    }
}

/// The map held by a run of entries; a later entry for the same file
/// overwrites an earlier one.
pub open spec fn spec_entries_map(es: Seq<SpecDbEntry>) -> Map<Seq<char>, Seq<Seq<char>>>
    decreases es.len(),
{
    if es.len() == 0 {
        Map::empty()
    } else {
        spec_entries_map(es.drop_last()).insert(es.last().file, es.last().flags)
    }
}

/// An entry's file is in the map, with its flags, when no later entry
/// repeats the file.
proof fn lemma_entries_map_index(es: Seq<SpecDbEntry>, i: int)
    requires
        0 <= i < es.len(),
        forall|j: int, k: int| 0 <= j < k < es.len() ==> es[j].file != es[k].file,
    ensures
        spec_entries_map(es).contains_key(es[i].file),
        spec_entries_map(es)[es[i].file] == es[i].flags,
    decreases es.len(),
{
    if i == es.len() - 1 {
    } else {
        assert(es.drop_last()[i] == es[i]);
        lemma_entries_map_index(es.drop_last(), i);
        assert(es[i].file != es[es.len() - 1].file);
    }
}

/// A file named by no entry is not in the map.
proof fn lemma_entries_map_absent(es: Seq<SpecDbEntry>, k: Seq<char>)
    requires
        forall|i: int| 0 <= i < es.len() ==> es[i].file != k,
    ensures
        !spec_entries_map(es).contains_key(k),
    decreases es.len(),
{
    if es.len() > 0 {
        assert(forall|i: int|
            0 <= i < es.drop_last().len() ==> #[trigger] es.drop_last()[i].file == es[i].file);
        lemma_entries_map_absent(es.drop_last(), k);
    }
}

/// Replacing the entry of a file in place is, on the map, an insert.
proof fn lemma_entries_map_update(es: Seq<SpecDbEntry>, i: int, e: SpecDbEntry)
    requires
        0 <= i < es.len(),
        forall|j: int, k: int| 0 <= j < k < es.len() ==> es[j].file != es[k].file,
        e.file == es[i].file,
    ensures
        spec_entries_map(es.update(i, e)) == spec_entries_map(es).insert(e.file, e.flags),
    decreases es.len(),
{
    let up = es.update(i, e);
    if i == es.len() - 1 {
        assert(up.drop_last() =~= es.drop_last());
        assert(up.last() == e);
        assert(spec_entries_map(es.drop_last()).insert(es.last().file, es.last().flags).insert(
            e.file,
            e.flags,
        ) =~= spec_entries_map(es.drop_last()).insert(e.file, e.flags));
    } else {
        assert(up.drop_last() =~= es.drop_last().update(i, e));
        assert(up.last() == es.last());
        lemma_entries_map_update(es.drop_last(), i, e);
        assert(es.last().file != e.file);
        assert(spec_entries_map(es.drop_last()).insert(e.file, e.flags).insert(
            es.last().file,
            es.last().flags,
        ) =~= spec_entries_map(es.drop_last()).insert(es.last().file, es.last().flags).insert(
            e.file,
            e.flags,
        ));
    }
}

/// The file-to-flags map produced from a build log.
#[derive(Debug)]
pub struct CompilationDatabase {
    /// The entries, one per file.
    pub entries: Vec<DbEntry>,
}

impl View for CompilationDatabase {
    type V = Map<Seq<char>, Seq<Seq<char>>>;

    open spec fn view(&self) -> Map<Seq<char>, Seq<Seq<char>>> {
        spec_entries_map(self.entries.deep_view())
    }
}

impl CompilationDatabase {
    /// Every file owns at most one entry.
    pub open spec fn wf(&self) -> bool {
        forall|j: int, k: int|
            0 <= j < k < self.entries.deep_view().len() ==> self.entries.deep_view()[j].file
                != self.entries.deep_view()[k].file
    }

    /// The empty database.
    pub fn new() -> (r: CompilationDatabase)
        ensures
            r.wf(),
            r@ == Map::<Seq<char>, Seq<Seq<char>>>::empty(),
    {
        let r = CompilationDatabase { entries: Vec::new() };
        proof {
            assert(r.entries.deep_view() =~= Seq::<SpecDbEntry>::empty());
        }
        r
    }

    /// Inserts `(file, flags)`; an existing entry for `file` is
    /// overwritten.
    pub fn insert(&mut self, file: String, flags: CompileFlags)
        requires
            old(self).wf(),
        ensures
            final(self).wf(),
            final(self)@ == old(self)@.insert(file@, flags@),
    {
        let ghost dv = self.entries.deep_view();
        let mut i: usize = 0;
        #[verifier::loop_isolation(false)]
        while i < self.entries.len()
            invariant
                self == old(self),
                i <= self.entries.len(),
                forall|k: int| 0 <= k < i ==> dv[k].file != file@,
            decreases self.entries.len() - i,
        {
            if str_eq(self.entries[i].file.as_str(), file.as_str()) {
                let e = DbEntry { file, flags };
                proof {
                    lemma_entries_map_update(dv, i as int, e@);
                }
                self.entries.set(i, e);
                proof {
                    assert(self.entries.deep_view() =~= dv.update(i as int, e@));
                    assert forall|j: int, k: int|
                        0 <= j < k < self.entries.deep_view().len() implies self.entries.deep_view()[j].file
                        != self.entries.deep_view()[k].file by {
                        assert(dv[j].file != dv[k].file);
                    }
                }
                return ;
            }
            i = i + 1;
        }
        let e = DbEntry { file, flags };
        self.entries.push(e);
        proof {
            assert(self.entries.deep_view() =~= dv.push(e@));
            assert(self.entries.deep_view().drop_last() =~= dv);
        }
    }

    /// The flags recorded for `file`, if any.
    pub fn get(&self, file: &str) -> (r: Option<&CompileFlags>)
        requires
            self.wf(),
        ensures
            match r {
                Some(f) => self@.contains_key(file@) && f@ == self@[file@],
                None => !self@.contains_key(file@),
            },
    {
        let ghost dv = self.entries.deep_view();
        let mut i: usize = 0;
        #[verifier::loop_isolation(false)]
        while i < self.entries.len()
            invariant
                i <= self.entries.len(),
                forall|k: int| 0 <= k < i ==> dv[k].file != file@,
            decreases self.entries.len() - i,
        {
            if str_eq(self.entries[i].file.as_str(), file) {
                proof {
                    lemma_entries_map_index(dv, i as int);
                }
                return Some(&self.entries[i].flags);
            }
            i = i + 1;
        }
        proof {
            lemma_entries_map_absent(dv, file@);
        }
        None
    }

    /// How many files have an entry.
    pub fn len(&self) -> (n: usize)
        ensures
            n == self.entries.deep_view().len(),
    {
        self.entries.len()
    }
}

/// Mathematical image of one resolved file list.
pub ghost struct SpecListEntry {
    pub path: Seq<char>,
    pub files: Seq<Seq<char>>,
}

/// One resolved file list: the list's path and the file paths it holds.
#[derive(Debug)]
pub struct FileListEntry {
    /// The path the invocation referenced.
    pub path: String,
    /// The file paths read from the list, in order.
    pub files: Vec<String>,
}

impl View for FileListEntry {
    type V = SpecListEntry;

    open spec fn view(&self) -> SpecListEntry {
        SpecListEntry { path: self.path@, files: self.files.deep_view() }
    }
}

impl DeepView for FileListEntry {
    type V = SpecListEntry;

    open spec fn deep_view(&self) -> SpecListEntry {
        self.view()
    }
}

/// The map held by a run of resolved lists; a later entry for the same
/// path overwrites an earlier one.
pub open spec fn spec_store_map(es: Seq<SpecListEntry>) -> Map<Seq<char>, Seq<Seq<char>>>
    decreases es.len(),
{
    if es.len() == 0 {
        Map::empty()
    } else {
        spec_store_map(es.drop_last()).insert(es.last().path, es.last().files)
    }
}

/// The resolved contents of the file lists a log references.  A path
/// that is absent could not be read and contributes nothing.
#[derive(Debug)]
pub struct FileListStore {
    /// The resolved lists, in the order they were added.
    pub entries: Vec<FileListEntry>,
}

impl View for FileListStore {
    type V = Map<Seq<char>, Seq<Seq<char>>>;

    open spec fn view(&self) -> Map<Seq<char>, Seq<Seq<char>>> {
        spec_store_map(self.entries.deep_view())
    }
}

impl FileListStore {
    /// The empty store.
    pub fn new() -> (r: FileListStore)
        ensures
            r@ == Map::<Seq<char>, Seq<Seq<char>>>::empty(),
    {
        let r = FileListStore { entries: Vec::new() };
        proof {
            assert(r.entries.deep_view() =~= Seq::<SpecListEntry>::empty());
        }
        r
    }

    /// Records that the list at `path` resolved to `files`.
    pub fn add(&mut self, path: String, files: Vec<String>)
        ensures
            final(self)@ == old(self)@.insert(path@, files.deep_view()),
    {
        let ghost dv = self.entries.deep_view();
        let e = FileListEntry { path, files };
        self.entries.push(e);
        proof {
            assert(self.entries.deep_view() =~= dv.push(e@));
            assert(self.entries.deep_view().drop_last() =~= dv);
        }
    }

    /// The resolved contents of the list at `path`, if it was readable.
    pub fn lookup(&self, path: &str) -> (r: Option<&Vec<String>>)
        ensures
            match r {
                Some(fs) => self@.contains_key(path@) && fs.deep_view() == self@[path@],
                None => !self@.contains_key(path@),
            },
    {
        let ghost dv = self.entries.deep_view();
        let mut i: usize = self.entries.len();
        proof {
            assert(dv.subrange(0, self.entries.len() as int) =~= dv);
        }
        #[verifier::loop_isolation(false)]
        while i > 0
            invariant
                i <= self.entries.len(),
                self@.contains_key(path@) == spec_store_map(dv.subrange(0, i as int)).contains_key(
                    path@,
                ),
                self@.contains_key(path@) ==> self@[path@] == spec_store_map(
                    dv.subrange(0, i as int),
                )[path@],
            decreases i,
        {
            i = i - 1;
            let ghost head = dv.subrange(0, i as int);
            let ghost cur = dv.subrange(0, i as int + 1);
            proof {
                assert(cur.drop_last() =~= head);
                assert(cur.last() == dv[i as int]);
            }
            if str_eq(self.entries[i].path.as_str(), path) {
                return Some(&self.entries[i].files);
            }
        }
        proof {
            assert(dv.subrange(0, 0) =~= Seq::<SpecListEntry>::empty());
        }
        None
    }
}

/// The cleaned lines of a file list's text: every line trimmed, the
/// blank ones dropped.
pub open spec fn spec_clean_lines(ls: Seq<Seq<char>>) -> Seq<Seq<char>>
    decreases ls.len(),
{
    if ls.len() == 0 {
        Seq::empty()
    } else {
        let pre = spec_clean_lines(ls.drop_last());
        let t = spec_trim(ls.last());
        if t.len() == 0 {
            pre
        } else {
            pre.push(t)
        }
    }
}

/// The file paths held by a file list with text `content`: one path per
/// line, trimmed, blank lines dropped.
pub open spec fn spec_file_list(content: Seq<char>) -> Seq<Seq<char>> {
    spec_clean_lines(spec_split_lines(content))
}

/// Parses the text of one file list.
pub fn parse_file_list(content: &str) -> (r: Vec<String>)
    ensures
        r.deep_view() == spec_file_list(content@),
{
    let lines = split_lines(content);
    let ghost lv = lines.deep_view();
    let mut out: Vec<String> = Vec::new();
    let mut i: usize = 0;
    proof {
        assert(out.deep_view() =~= Seq::<Seq<char>>::empty());
        assert(lv.subrange(0, 0) =~= Seq::<Seq<char>>::empty());
    }
    #[verifier::loop_isolation(false)]
    while i < lines.len()
        invariant
            i <= lines.len(),
            out.deep_view() == spec_clean_lines(lv.subrange(0, i as int)),
        decreases lines.len() - i,
    {
        let ghost out0 = out.deep_view();
        let ghost cur = lv.subrange(0, i as int + 1);
        proof {
            assert(cur.drop_last() =~= lv.subrange(0, i as int));
            assert(cur.last() == lv[i as int]);
        }
        let t = trim(lines[i].as_str());
        if t.unicode_len() > 0 {
            let ghost tv = t@;
            out.push(t);
            proof {
                assert(out.deep_view() =~= out0.push(tv));
            }
        }
        i = i + 1;
    }
    proof {
        assert(lv.subrange(0, lines.len() as int) =~= lv);
    }
    out
}

/// The map whose keys are exactly the members of `fs`, every one bound to
/// `v`.
pub open spec fn spec_const_map(fs: Seq<Seq<char>>, v: Seq<Seq<char>>) -> Map<
    Seq<char>,
    Seq<Seq<char>>,
> {
    Map::new(|f: Seq<char>| fs.contains(f), |f: Seq<char>| v)
}

/// Extending the key sequence by one key is, on the map, an insert.
pub proof fn lemma_const_map_push(fs: Seq<Seq<char>>, v: Seq<Seq<char>>, f: Seq<char>)
    ensures
        spec_const_map(fs.push(f), v) == spec_const_map(fs, v).insert(f, v),
{
    assert forall|t: Seq<char>| #[trigger] fs.push(f).contains(t) <==> fs.contains(t) || t == f by {
        lemma_contains_push(fs, f, t);
    }
    assert(spec_const_map(fs.push(f), v) =~= spec_const_map(fs, v).insert(f, v));
}

/// The files contributed by the referenced file lists, in order; a list
/// that is not in the store contributes nothing.
pub open spec fn spec_lists_files(
    lists: Seq<Seq<char>>,
    st: Map<Seq<char>, Seq<Seq<char>>>,
) -> Seq<Seq<char>>
    decreases lists.len(),
{
    if lists.len() == 0 {
        Seq::empty()
    } else {
        spec_lists_files(lists.drop_last(), st) + (if st.contains_key(lists.last()) {
            st[lists.last()]
        } else {
            Seq::empty()
        })
    }
}

/// Every file one command contributes: the expanded file lists, then the
/// explicit files, then the single file.
pub open spec fn spec_expanded_files(c: SpecCommand, st: Map<Seq<char>, Seq<Seq<char>>>) -> Seq<
    Seq<char>,
> {
    spec_lists_files(c.file_lists, st) + (match c.files {
        Some(fs) => fs,
        None => Seq::empty(),
    }) + (match c.file {
        Some(f) => seq![f],
        None => Seq::empty(),
    })
}

/// The database of one command: every file it contributes, bound to the
/// flag set of its command string.
pub open spec fn spec_cmd_db(c: SpecCommand, st: Map<Seq<char>, Seq<Seq<char>>>) -> Map<
    Seq<char>,
    Seq<Seq<char>>,
> {
    spec_const_map(spec_expanded_files(c, st), spec_flags_of(c.command))
}

/// What one command adds to the assembled database: nothing when its
/// command string does not tokenize.
pub open spec fn spec_contrib(c: SpecCommand, st: Map<Seq<char>, Seq<Seq<char>>>) -> Map<
    Seq<char>,
    Seq<Seq<char>>,
> {
    if spec_tokenize(c.command) is Some {
        spec_cmd_db(c, st)
    } else {
        Map::empty()
    }
}

/// The assembled database of a command sequence: the commands'
/// contributions merged in scan order, the later command winning.
pub open spec fn spec_assemble(
    cs: Seq<SpecCommand>,
    st: Map<Seq<char>, Seq<Seq<char>>>,
) -> Map<Seq<char>, Seq<Seq<char>>>
    decreases cs.len(),
{
    if cs.len() == 0 {
        Map::empty()
    } else {
        spec_assemble(cs.drop_last(), st).union_prefer_right(spec_contrib(cs.last(), st))
    }
}

/// Merges every command's contribution into one database, in scan order.
pub fn assemble(commands: &Vec<CompilationCommand>, lists: &FileListStore) -> (db:
    CompilationDatabase)
    ensures
        db.wf(),
        db@ == spec_assemble(commands.deep_view(), lists@),
{
    let ghost cv = commands.deep_view();
    let ghost st = lists@;
    let mut db = CompilationDatabase::new();
    let mut k: usize = 0;
    proof {
        assert(cv.subrange(0, 0) =~= Seq::<SpecCommand>::empty());
    }
    #[verifier::loop_isolation(false)]
    while k < commands.len()
        invariant
            k <= commands.len(),
            db.wf(),
            db@ == spec_assemble(cv.subrange(0, k as int), st),
        decreases commands.len() - k,
    {
        let ghost base = db@;
        let ghost cur = cv.subrange(0, k as int + 1);
        proof {
            assert(cur.drop_last() =~= cv.subrange(0, k as int));
            assert(cur.last() == cv[k as int]);
        }
        match commands[k].compile_flags(lists) {
            Ok(part) => {
                let ghost pv = part.entries.deep_view();
                let mut j: usize = 0;
                proof {
                    assert(pv.subrange(0, 0) =~= Seq::<SpecDbEntry>::empty());
                    assert(base.union_prefer_right(Map::empty()) =~= base);
                }
                #[verifier::loop_isolation(false)]
                while j < part.entries.len()
                    invariant
                        j <= part.entries.len(),
                        db.wf(),
                        db@ == base.union_prefer_right(spec_entries_map(pv.subrange(0, j as int))),
                    decreases part.entries.len() - j,
                {
                    let ghost pre = pv.subrange(0, j as int);
                    let ghost now = pv.subrange(0, j as int + 1);
                    proof {
                        assert(now.drop_last() =~= pre);
                        assert(now.last() == pv[j as int]);
                    }
                    let f = part.entries[j].file.clone();
                    let fl = part.entries[j].flags.clone();
                    db.insert(f, fl);
                    proof {
                        assert(db@ =~= base.union_prefer_right(spec_entries_map(now)));
                    }
                    j = j + 1;
                }
                proof {
                    assert(pv.subrange(0, pv.len() as int) =~= pv);
                    assert(db@ =~= spec_assemble(cur, st));
                }
            },
            Err(_) => {
                proof {
                    assert(base.union_prefer_right(Map::empty()) =~= base);
                    assert(db@ =~= spec_assemble(cur, st));
                }
            },
        }
        k = k + 1;
    }
    proof {
        assert(cv.subrange(0, cv.len() as int) =~= cv);
    }
    db
}

/// The referenced file lists that the store can resolve, in order.
pub open spec fn spec_present_lists(
    lists: Seq<Seq<char>>,
    st: Map<Seq<char>, Seq<Seq<char>>>,
) -> Seq<Seq<char>>
    decreases lists.len(),
{
    if lists.len() == 0 {
        Seq::empty()
    } else if st.contains_key(lists.last()) {
        spec_present_lists(lists.drop_last(), st).push(lists.last())
    } else {
        spec_present_lists(lists.drop_last(), st)
    }
}

/// Unresolvable lists contribute no files.
proof fn lemma_lists_files_present(lists: Seq<Seq<char>>, st: Map<Seq<char>, Seq<Seq<char>>>)
    ensures
        spec_lists_files(lists, st) == spec_lists_files(spec_present_lists(lists, st), st),
    decreases lists.len(),
{
    if lists.len() > 0 {
        lemma_lists_files_present(lists.drop_last(), st);
        let p = spec_present_lists(lists.drop_last(), st);
        if st.contains_key(lists.last()) {
            assert(p.push(lists.last()).drop_last() =~= p);
            assert(p.push(lists.last()).last() == lists.last());
        } else {
            assert(spec_lists_files(lists.drop_last(), st) + Seq::<Seq<char>>::empty()
                =~= spec_lists_files(lists.drop_last(), st));
        }
    }
}

/// A file list that the store cannot resolve contributes nothing: the
/// command's database is the one it would have with only the resolvable
/// lists, and its explicit files and single file keep their entries.
pub proof fn lemma_missing_list_contributes_nothing(
    c: SpecCommand,
    st: Map<Seq<char>, Seq<Seq<char>>>,
)
    ensures
        spec_cmd_db(c, st) == spec_cmd_db(
            (SpecCommand { file_lists: spec_present_lists(c.file_lists, st), ..c }),
            st,
        ),
        (match c.files {
            Some(fs) => forall|k: int|
                0 <= k < fs.len() ==> spec_cmd_db(c, st).contains_key(#[trigger] fs[k]),
            None => true,
        }),
        (match c.file {
            Some(f) => spec_cmd_db(c, st).contains_key(f),
            None => true,
        }),
{
    lemma_lists_files_present(c.file_lists, st);
    let c2 = SpecCommand { file_lists: spec_present_lists(c.file_lists, st), ..c };
    assert(spec_expanded_files(c2, st) == spec_expanded_files(c, st));
    let ex = spec_expanded_files(c, st);
    let lpart = spec_lists_files(c.file_lists, st);
    let fpart = (match c.files {
        Some(fs) => fs,
        None => Seq::<Seq<char>>::empty(),
    });
    match c.files {
        Some(fs) => {
            assert forall|k: int| 0 <= k < fs.len() implies spec_cmd_db(c, st).contains_key(
                #[trigger] fs[k],
            ) by {
                assert(ex[lpart.len() + k] == fs[k]);
                assert(ex.contains(fs[k]));
            }
        },
        None => {},
    }
    match c.file {
        Some(f) => {
            assert(ex[lpart.len() + fpart.len() as int] == f);
            assert(ex.contains(f));
        },
        None => {},
    }
}

/// The later of two commands that reference the same file decides its
/// flags: when command `j` contributes file `f` and no later command
/// does, the assembled database binds `f` to command `j`'s flags.
pub proof fn lemma_last_write_wins(
    cs: Seq<SpecCommand>,
    st: Map<Seq<char>, Seq<Seq<char>>>,
    j: int,
    f: Seq<char>,
)
    requires
        0 <= j < cs.len(),
        spec_contrib(cs[j], st).contains_key(f),
        forall|k: int| j < k < cs.len() ==> !(#[trigger] spec_contrib(cs[k], st)).contains_key(f),
    ensures
        spec_assemble(cs, st).contains_key(f),
        spec_assemble(cs, st)[f] == spec_contrib(cs[j], st)[f],
    decreases cs.len(),
{
    if j == cs.len() - 1 {
    } else {
        assert(!spec_contrib(cs.last(), st).contains_key(f));
        assert(cs.drop_last()[j] == cs[j]);
        assert(forall|k: int|
            j < k < cs.drop_last().len() ==> !(#[trigger] spec_contrib(
                cs.drop_last()[k],
                st,
            )).contains_key(f)) by {
            assert(forall|k: int|
                0 <= k < cs.drop_last().len() ==> #[trigger] cs.drop_last()[k] == cs[k]);
        }
        lemma_last_write_wins(cs.drop_last(), st, j, f);
    }
}

} // verus!
