//! The record of scheduled deletions, which makes scans idempotent.
//!
//! The record is kept in `<root>/.bomb-ttl/state.json`, which is never swept.
//! Its keys are made of an inode and a creation time, so that a path that is
//! deleted and created again under the same name is not taken for the old one.

use vstd::prelude::*;
use vstd::slice::slice_to_vec;

use crate::entries;
use crate::entries::EntryMap;
use crate::paths;
use crate::paths::{join, same_file_name, same_path};
use crate::text;
use crate::text::push_decimal;

verus! {

/// A deletion that has been scheduled.
#[derive(Debug, PartialEq, Eq)]
pub struct StateEntry {
    /// The path, as it is shown.
    pub path: String,
    /// The bytes of the path, where they are not those of `path`: it is not
    /// text, and `path` has something in place of what cannot be shown.
    pub raw_path: Option<Vec<u8>>,
    pub jobid: String,
    pub created_at_secs: u64,
    pub delete_at_secs: u64,
    pub inode: u64,
}

/// The contents of a [`StateEntry`].
pub struct EntryView {
    pub path: Seq<char>,
    pub raw_path: Option<Seq<u8>>,
    pub jobid: Seq<char>,
    pub created_at_secs: u64,
    pub delete_at_secs: u64,
    pub inode: u64,
}

impl View for StateEntry {
    type V = EntryView;

    open spec fn view(&self) -> EntryView {
        EntryView {
            path: self.path@,
            raw_path: match self.raw_path {
                Some(b) => Some(b@),
                None => None,
            },
            jobid: self.jobid@,
            created_at_secs: self.created_at_secs,
            delete_at_secs: self.delete_at_secs,
            inode: self.inode,
        }
    }
}

impl Clone for StateEntry {
    fn clone(&self) -> (e: StateEntry)
        ensures
            e@ == self@,
    {
        StateEntry {
            path: self.path.clone(),
            raw_path: match &self.raw_path {
                Some(b) => Some(slice_to_vec(b.as_slice())),
                None => None,
            },
            jobid: self.jobid.clone(),
            created_at_secs: self.created_at_secs,
            delete_at_secs: self.delete_at_secs,
            inode: self.inode,
        }
    }
}

/// The path of an entry.
pub open spec fn path_of(e: EntryView) -> Seq<u8> {
    match e.raw_path {
        Some(b) => b,
        None => vstd::utf8::encode_utf8(e.path),
    }
}

impl StateEntry {
    /// The path of the entry.
    pub fn path_bytes(&self) -> (p: &[u8])
        ensures
            p@ == path_of(self@),
    {
        match &self.raw_path {
            Some(b) => b.as_slice(),
            None => self.path.as_str().as_bytes(),
        }
    }
}

/// The scheduled deletions, by their keys.
#[derive(Debug, PartialEq, Eq)]
pub struct State {
    pub version: u32,
    pub entries: EntryMap,
}

/// The contents of a [`State`].
pub struct StateView {
    pub version: u32,
    pub rows: Seq<entries::Row>,
}

impl View for State {
    type V = StateView;

    open spec fn view(&self) -> StateView {
        StateView { version: self.version, rows: self.entries@ }
    }
}

/// What came of reading the state file.
#[derive(Debug)]
pub enum StateFile {
    /// It was read, and held this state.
    Parsed(State),
    /// There is no such file.
    Missing,
    /// It could not be read; the description of why.
    Unreadable(String),
    /// It was read, and does not hold a state; the description of why.
    Malformed(String),
}

/// Why there is no state to be had from the state file.
#[derive(Debug, PartialEq, Eq)]
pub enum LoadError {
    /// It could not be read.
    Io(String),
    /// It does not hold a state.
    InvalidData(String),
}

/// The description of a failure.
pub open spec fn load_error_text(e: LoadError) -> Seq<char> {
    match e {
        LoadError::Io(why) => why@,
        LoadError::InvalidData(why) => why@,
    }
}

impl LoadError {
    /// The description of the failure.
    pub fn text(&self) -> (s: &str)
        ensures
            s@ == load_error_text(*self),
    {
        match self {
            LoadError::Io(why) => why.as_str(),
            LoadError::InvalidData(why) => why.as_str(),
        }
    }
}

/// What the state file stands for, or why it stands for nothing. A missing
/// file stands for a state without entries.
pub open spec fn state_in(file: StateFile) -> Result<StateView, LoadError> {
    match file {
        StateFile::Parsed(s) => Ok(loaded_state(s@)),
        StateFile::Missing => Ok(empty_state()),
        StateFile::Unreadable(why) => Err(LoadError::Io(why)),
        StateFile::Malformed(why) => Err(LoadError::InvalidData(why)),
    }
}

/// Where the state of `root` is kept.
pub open spec fn file_of(root: Seq<u8>) -> Seq<u8> {
    paths::joined(
        paths::joined(root, vstd::utf8::encode_utf8(crate::STATE_DIR_NAME@)),
        vstd::utf8::encode_utf8(crate::STATE_FILE_NAME@),
    )
}

/// Where the state of `root` is kept.
pub fn state_file(root: &[u8]) -> (p: Vec<u8>)
    ensures
        p@ == file_of(root@),
{
    let dir = join(slice_to_vec(root), crate::STATE_DIR_NAME.as_bytes());
    join(dir, crate::STATE_FILE_NAME.as_bytes())
}

/// The key for the file with the given inode and creation time.
pub open spec fn key_text(inode: u64, created_at_secs: u64) -> Seq<char> {
    text::decimal(inode as nat) + seq![':'] + text::decimal(created_at_secs as nat)
}

/// A state without entries.
pub open spec fn empty_state() -> StateView {
    StateView { version: State::VERSION, rows: Seq::empty() }
}

/// The state that a file with the contents `v` stands for: a file without a
/// version of its own has the current one.
pub open spec fn loaded_state(v: StateView) -> StateView {
    StateView { version: if v.version == 0 { State::VERSION } else { v.version }, ..v }
}

/// A key is made of two numerals with a colon in between: their values are the
/// inode and the creation time.
pub proof fn law_key_names_inode_and_time(inode: u64, created_at_secs: u64)
    ensures
        exists|a: Seq<char>, b: Seq<char>|
            #[trigger] text::denotes(a, inode as nat) && #[trigger] text::denotes(
                b,
                created_at_secs as nat,
            ) && key_text(inode, created_at_secs) == a + seq![':'] + b,
{
    text::law_decimal_denotes_the_number(inode as nat);
    text::law_decimal_denotes_the_number(created_at_secs as nat);
}

/// Loading changes no entry. A state with a version keeps it, and one without
/// gets version 1; a missing file is a state of version 1 without entries; and
/// there is no state to be had from any other file.
pub proof fn law_loading_changes_no_entry(s: State, why: String)
    ensures
        state_in(StateFile::Parsed(s)) is Ok,
        state_in(StateFile::Parsed(s))->Ok_0.rows == s@.rows,
        s@.version != 0 ==> state_in(StateFile::Parsed(s))->Ok_0.version == s@.version,
        s@.version == 0 ==> state_in(StateFile::Parsed(s))->Ok_0.version == 1,
        state_in(StateFile::Missing) is Ok,
        state_in(StateFile::Missing)->Ok_0.rows.len() == 0,
        state_in(StateFile::Missing)->Ok_0.version == 1,
        state_in(StateFile::Unreadable(why)) == Err::<StateView, LoadError>(LoadError::Io(why)),
        state_in(StateFile::Malformed(why)) == Err::<StateView, LoadError>(
            LoadError::InvalidData(why),
        ),
{
}

/// The state of a root is kept in its directory `.bomb-ttl`, in the file
/// `state.json`.
pub proof fn law_state_is_kept_in_the_root(root: Seq<u8>)
    ensures
        paths::names(file_of(root)) == paths::names(root).push(
            vstd::utf8::encode_utf8(".bomb-ttl"@),
        ).push(vstd::utf8::encode_utf8("state.json"@)),
        root.is_prefix_of(file_of(root)),
{
    reveal_strlit(".bomb-ttl");
    reveal_strlit("state.json");
    let dir = vstd::utf8::encode_utf8(".bomb-ttl"@);
    let file = vstd::utf8::encode_utf8("state.json"@);
    paths::lemma_ascii_name(".bomb-ttl"@);
    paths::lemma_ascii_name("state.json"@);
    paths::law_joined_has_the_names_of_both(root, dir);
    paths::law_joined_has_the_names_of_both(paths::joined(root, dir), file);
    assert(paths::names(root) + seq![dir] + seq![file] =~= paths::names(root).push(dir).push(file));
    assert(file_of(root).take(root.len() as int) =~= paths::joined(root, dir).take(
        root.len() as int,
    ));
}

/// The path of an entry is the bytes that were recorded, where there are any,
/// and else those of the text that was.
pub proof fn law_path_is_what_was_recorded(e: EntryView)
    ensures
        e.raw_path is Some ==> path_of(e) == e.raw_path->0,
        e.raw_path is None ==> path_of(e) == vstd::utf8::encode_utf8(e.path),
{
}

/// Different inodes or creation times have different keys.
pub proof fn law_keys_are_distinct(i1: u64, c1: u64, i2: u64, c2: u64)
    requires
        key_text(i1, c1) == key_text(i2, c2),
    ensures
        i1 == i2,
        c1 == c2,
{
    let a1 = text::decimal(i1 as nat);
    let a2 = text::decimal(i2 as nat);
    let b1 = text::decimal(c1 as nat);
    let b2 = text::decimal(c2 as nat);
    let k1 = key_text(i1, c1);
    let k2 = key_text(i2, c2);
    text::lemma_decimal_digits(i1 as nat);
    text::lemma_decimal_digits(i2 as nat);
    assert(k1[a1.len() as int] == ':');
    assert(k2[a2.len() as int] == ':');
    if a1.len() < a2.len() {
        assert(k2[a1.len() as int] == a2[a1.len() as int]);
    }
    if a2.len() < a1.len() {
        assert(k1[a2.len() as int] == a1[a2.len() as int]);
    }
    assert(k1.take(a1.len() as int) =~= a1);
    assert(k2.take(a2.len() as int) =~= a2);
    assert(k1.skip(a1.len() as int + 1) =~= b1);
    assert(k2.skip(a2.len() as int + 1) =~= b2);
    text::lemma_decimal_injective(i1 as nat, i2 as nat);
    text::lemma_decimal_injective(c1 as nat, c2 as nat);
}

/// The entries of `rows` by their keys, where of two rows with the same key
/// the later one counts.
pub open spec fn last_wins(rows: Seq<entries::Row>) -> Map<Seq<char>, EntryView>
    decreases rows.len(),
{
    if rows.len() == 0 {
        Map::empty()
    } else {
        last_wins(rows.drop_last()).insert(rows.last().0, rows.last().1)
    }
}

/// The last row counts for its key, and changes nothing for any other key.
pub proof fn law_later_row_counts(rows: Seq<entries::Row>, key: Seq<char>, e: EntryView)
    ensures
        last_wins(rows.push((key, e))).contains_key(key),
        last_wins(rows.push((key, e)))[key] == e,
        forall|k: Seq<char>|
            k != key ==> (#[trigger] last_wins(rows.push((key, e))).contains_key(k)
                == last_wins(rows).contains_key(k)),
        forall|k: Seq<char>|
            k != key && last_wins(rows).contains_key(k) ==> #[trigger] last_wins(
                rows.push((key, e)),
            )[k] == last_wins(rows)[k],
{
    assert(rows.push((key, e)).drop_last() =~= rows);
}

proof fn lemma_last_wins_in_order(rows: Seq<entries::Row>)
    requires
        entries::in_order(rows),
    ensures
        last_wins(rows) == entries::as_map(rows),
    decreases rows.len(),
{
    if rows.len() == 0 {
        assert(entries::as_map(rows) =~= Map::empty());
    } else {
        let rest = rows.drop_last();
        let (key, e) = rows.last();
        lemma_last_wins_in_order(rest);
        assert(rest.insert(rest.len() as int, (key, e)) =~= rows);
        entries::lemma_inserted(rest, rest.len() as int, key, e);
    }
}

/// A state that is written out row by row and read back stands for what it
/// stood for: what is read is built from the rows of what was written. In
/// particular a state with a version of its own is the same.
pub proof fn law_state_reads_back(written: StateView, read: StateView)
    requires
        entries::in_order(written.rows),
        read.version == written.version,
        entries::in_order(read.rows),
        entries::as_map(read.rows) == last_wins(written.rows),
    ensures
        loaded_state(read) == loaded_state(written),
        written.version != 0 ==> loaded_state(read) == written,
{
    lemma_last_wins_in_order(written.rows);
    entries::law_order_is_canonical(read.rows, written.rows);
}

/// The number of the first row with the path `target`, or the number of rows
/// where there is none.
pub open spec fn first_same_path(rows: Seq<entries::Row>, target: Seq<u8>) -> int
    decreases rows.len(),
{
    if rows.len() == 0 || paths::is_same_path(path_of(rows[0].1), target) {
        0
    } else {
        1 + first_same_path(rows.drop_first(), target)
    }
}

/// The number of the first row whose path ends in the name that `target` ends
/// in, or the number of rows where there is none.
pub open spec fn first_same_name(rows: Seq<entries::Row>, target: Seq<u8>) -> int
    decreases rows.len(),
{
    if rows.len() == 0 || paths::last_name(path_of(rows[0].1)) == paths::last_name(target) {
        0
    } else {
        1 + first_same_name(rows.drop_first(), target)
    }
}

/// The number of the row that is meant by `target`: the first with that path,
/// else the first whose path ends in the same name; or the number of rows
/// where none is meant.
pub open spec fn meant_row(rows: Seq<entries::Row>, target: Seq<u8>) -> int {
    let i = first_same_path(rows, target);
    if i < rows.len() {
        i
    } else {
        first_same_name(rows, target)
    }
}

/// The row that [`first_same_path`] speaks of has the path, and none before it.
pub proof fn lemma_first_same_path(rows: Seq<entries::Row>, target: Seq<u8>)
    ensures
        0 <= first_same_path(rows, target) <= rows.len(),
        first_same_path(rows, target) < rows.len() ==> paths::is_same_path(
            path_of(rows[first_same_path(rows, target)].1),
            target,
        ),
        forall|j: int|
            0 <= j < first_same_path(rows, target) ==> !paths::is_same_path(
                path_of(#[trigger] rows[j].1),
                target,
            ),
    decreases rows.len(),
{
    if !(rows.len() == 0 || paths::is_same_path(path_of(rows[0].1), target)) {
        let rest = rows.drop_first();
        lemma_first_same_path(rest, target);
        let i = first_same_path(rows, target);
        if i < rows.len() {
            assert(rows[i] == rest[i - 1]);
        }
        assert forall|j: int| 0 <= j < i implies !paths::is_same_path(
            path_of(#[trigger] rows[j].1),
            target,
        ) by {
            if j > 0 {
                assert(rows[j] == rest[j - 1]);
            }
        }
    }
}

/// The row that [`first_same_name`] speaks of ends in the name, and none
/// before it.
pub proof fn lemma_first_same_name(rows: Seq<entries::Row>, target: Seq<u8>)
    ensures
        0 <= first_same_name(rows, target) <= rows.len(),
        first_same_name(rows, target) < rows.len() ==> paths::last_name(
            path_of(rows[first_same_name(rows, target)].1),
        ) == paths::last_name(target),
        forall|j: int|
            0 <= j < first_same_name(rows, target) ==> paths::last_name(
                path_of(#[trigger] rows[j].1),
            ) != paths::last_name(target),
    decreases rows.len(),
{
    if !(rows.len() == 0 || paths::last_name(path_of(rows[0].1)) == paths::last_name(target)) {
        let rest = rows.drop_first();
        lemma_first_same_name(rest, target);
        let i = first_same_name(rows, target);
        if i < rows.len() {
            assert(rows[i] == rest[i - 1]);
        }
        assert forall|j: int| 0 <= j < i implies paths::last_name(path_of(#[trigger] rows[j].1))
            != paths::last_name(target) by {
            if j > 0 {
                assert(rows[j] == rest[j - 1]);
            }
        }
    }
}

/// Whether `is_there`, asked for `path`, may answer `answer`.
pub open spec fn answers<F: Fn(&[u8]) -> bool>(is_there: F, path: Seq<u8>, answer: bool) -> bool {
    exists|p: &[u8]| p@ == path && #[trigger] call_ensures(is_there, (p,), answer)
}

impl Default for State {
    /// A state without a version and without entries.
    fn default() -> (s: State)
        ensures
            s@ == (StateView { version: 0, rows: Seq::empty() }),
    {
        State { version: 0, entries: EntryMap::new() }
    }
}

impl Clone for State {
    fn clone(&self) -> (s: State)
        ensures
            s@ == self@,
    {
        State { version: self.version, entries: self.entries.clone() }
    }
}

impl State {
    /// The current version of the state file.
    pub const VERSION: u32 = 1;

    /// The key for the file with the given inode and creation time.
    pub fn key(inode: u64, created_at_secs: u64) -> (key: String)
        ensures
            key@ == key_text(inode, created_at_secs),
    {
        let mut key = String::new();
        push_decimal(&mut key, inode);
        key.push(':');
        push_decimal(&mut key, created_at_secs);
        assert(key@ =~= key_text(inode, created_at_secs));
        key
    }

    /// A state of the current version without entries.
    pub fn empty() -> (s: State)
        ensures
            s@ == empty_state(),
    {
        State { version: State::VERSION, entries: EntryMap::new() }
    }

    /// The state that the state file stands for. A missing file stands for a
    /// state without entries; one that cannot be read or does not hold a state
    /// stands for none.
    pub fn load(file: StateFile) -> (r: Result<State, LoadError>)
        ensures
            match state_in(file) {
                Ok(s) => r is Ok && r->Ok_0@ == s,
                Err(e) => r is Err && r->Err_0 == e,
            },
    {
        match file {
            StateFile::Parsed(s) => {
                if s.version == 0 {
                    Ok(State { version: State::VERSION, entries: s.entries })
                } else {
                    Ok(s)
                }
            },
            StateFile::Missing => Ok(State::empty()),
            StateFile::Unreadable(why) => Err(LoadError::Io(why)),
            StateFile::Malformed(why) => Err(LoadError::InvalidData(why)),
        }
    }

    /// A state of the given version with the given keys and entries; of two
    /// entries under the same key the later one counts.
    pub fn from_rows(version: u32, rows: Vec<(String, StateEntry)>) -> (s: State)
        ensures
            s.version == version,
            entries::as_map(s.entries@) == last_wins(entries::rows_of(rows@)),
            entries::in_order(s.entries@),
    {
        let mut map = EntryMap::new();
        let ghost all = entries::rows_of(rows@);
        proof {
            assert(entries::as_map(map@) =~= Map::empty());
            assert(all.take(0) =~= Seq::empty());
        }
        let mut i: usize = 0;
        while i < rows.len()
            invariant
                i <= rows@.len(),
                all == entries::rows_of(rows@),
                entries::in_order(map@),
                entries::as_map(map@) == last_wins(all.take(i as int)),
            decreases rows@.len() - i,
        {
            proof {
                assert(all.take(i + 1).drop_last() =~= all.take(i as int));
            }
            map.insert(rows[i].0.clone(), rows[i].1.clone());
            i = i + 1;
        }
        assert(all.take(i as int) =~= all);
        State { version, entries: map }
    }

    /// Drops the entries whose path no longer exists, as told by `is_there`.
    /// Returns how many were dropped.
    pub fn prune_orphans<F: Fn(&[u8]) -> bool>(&mut self, is_there: F) -> (removed: usize)
        requires
            forall|p: &[u8]| call_requires(is_there, (p,)),
        ensures
            final(self).version == old(self).version,
            exists|live: Seq<bool>|
                {
                    &&& live.len() == old(self)@.rows.len()
                    &&& forall|i: int|
                        0 <= i < live.len() ==> answers(
                            is_there,
                            path_of(old(self)@.rows[i].1),
                            #[trigger] live[i],
                        )
                    &&& final(self)@.rows == #[trigger] entries::live_rows(old(self)@.rows, live)
                },
            removed == old(self)@.rows.len() - final(self)@.rows.len(),
    {
        let mut live: Vec<bool> = Vec::new();
        let mut i: usize = 0;
        while i < self.entries.len()
            invariant
                i <= self@.rows.len(),
                *self == *old(self),
                live@.len() == i,
                forall|p: &[u8]| call_requires(is_there, (p,)),
                forall|j: int|
                    0 <= j < i ==> answers(is_there, path_of(self@.rows[j].1), #[trigger] live@[j]),
            decreases self@.rows.len() - i,
        {
            let path = self.entries.entry_at(i).path_bytes();
            let found: bool = is_there(path);
            assert(answers(is_there, path_of(self@.rows[i as int].1), found));
            live.push(found);
            i = i + 1;
        }
        self.entries.retain_live(&live)
    }

    /// The position of the first entry with the path `target`, or the number
    /// of entries where there is none.
    fn find_path(&self, target: &[u8]) -> (i: usize)
        ensures
            i == first_same_path(self@.rows, target@),
    {
        let ghost rows = self@.rows;
        let mut i: usize = 0;
        assert(rows.skip(0) =~= rows);
        while i < self.entries.len()
            invariant
                i <= rows.len(),
                self@.rows == rows,
                first_same_path(rows, target@) == i + first_same_path(
                    rows.skip(i as int),
                    target@,
                ),
            decreases rows.len() - i,
        {
            assert(rows.skip(i as int)[0] == rows[i as int]);
            if same_path(self.entries.entry_at(i).path_bytes(), target) {
                return i;
            }
            assert(rows.skip(i as int).drop_first() =~= rows.skip(i + 1));
            i = i + 1;
        }
        i
    }

    /// The position of the first entry whose path ends in the name that
    /// `target` ends in, or the number of entries where there is none.
    fn find_name(&self, target: &[u8]) -> (i: usize)
        ensures
            i == first_same_name(self@.rows, target@),
    {
        let ghost rows = self@.rows;
        let mut i: usize = 0;
        assert(rows.skip(0) =~= rows);
        while i < self.entries.len()
            invariant
                i <= rows.len(),
                self@.rows == rows,
                first_same_name(rows, target@) == i + first_same_name(
                    rows.skip(i as int),
                    target@,
                ),
            decreases rows.len() - i,
        {
            assert(rows.skip(i as int)[0] == rows[i as int]);
            if same_file_name(self.entries.entry_at(i).path_bytes(), target) {
                return i;
            }
            assert(rows.skip(i as int).drop_first() =~= rows.skip(i + 1));
            i = i + 1;
        }
        i
    }

    /// Takes out the entry that is meant by the path `target`: the one with
    /// that path, else the first, in the order of the keys, whose path ends in
    /// the same name.
    pub fn cancel(&mut self, target: &[u8]) -> (r: Option<StateEntry>)
        ensures
            final(self).version == old(self).version,
            ({
                let rows = old(self)@.rows;
                let i = meant_row(rows, target@);
                if i < rows.len() {
                    &&& r is Some
                    &&& r->0@ == rows[i].1
                    &&& final(self)@.rows == rows.remove(i)
                } else {
                    &&& r is None
                    &&& final(self)@.rows == rows
                }
            }),
    {
        let mut i: usize = self.find_path(target);
        if i >= self.entries.len() {
            i = self.find_name(target);
        }
        if i < self.entries.len() {
            Some(self.entries.remove_at(i))
        } else {
            None
        }
    }
}

} // verus!
