//! The scheduled deletions of a state, in the order of their keys.

use vstd::prelude::*;

use crate::state::EntryView;
use crate::state::StateEntry;

verus! {

/// Whether `a` comes before `b`: at the first place where they differ, the
/// smaller byte decides, and a text comes before every longer text that it
/// is the start of.
pub open spec fn bytes_less(a: Seq<u8>, b: Seq<u8>) -> bool
    decreases a.len(),
{
    if b.len() == 0 {
        false
    } else if a.len() == 0 {
        true
    } else if a[0] != b[0] {
        a[0] < b[0]
    } else {
        bytes_less(a.drop_first(), b.drop_first())
    }
}

/// Whether key `a` comes before key `b`: by the bytes of their UTF-8 text.
pub open spec fn key_less(a: Seq<char>, b: Seq<char>) -> bool {
    bytes_less(vstd::utf8::encode_utf8(a), vstd::utf8::encode_utf8(b))
}

/// A key and what is recorded under it.
pub type Row = (Seq<char>, EntryView);

/// Whether the keys of `rows` go up, so that none occurs twice.
pub open spec fn in_order(rows: Seq<Row>) -> bool {
    forall|i: int, j: int|
        0 <= i < j < rows.len() ==> key_less(#[trigger] rows[i].0, #[trigger] rows[j].0)
}

/// Whether one of the `rows` is recorded under `key`.
pub open spec fn has_key(rows: Seq<Row>, key: Seq<char>) -> bool {
    exists|i: int| 0 <= i < rows.len() && #[trigger] rows[i].0 == key
}

/// The entries of `rows` by their keys.
pub open spec fn as_map(rows: Seq<Row>) -> Map<Seq<char>, EntryView> {
    Map::new(
        |key: Seq<char>| has_key(rows, key),
        |key: Seq<char>| rows[choose|i: int| 0 <= i < rows.len() && #[trigger] rows[i].0 == key].1,
    )
}

proof fn lemma_bytes_irreflexive(a: Seq<u8>)
    ensures
        !bytes_less(a, a),
    decreases a.len(),
{
    if a.len() > 0 {
        lemma_bytes_irreflexive(a.drop_first());
    }
}

proof fn lemma_bytes_transitive(a: Seq<u8>, b: Seq<u8>, c: Seq<u8>)
    requires
        bytes_less(a, b),
        bytes_less(b, c),
    ensures
        bytes_less(a, c),
    decreases a.len(),
{
    if a.len() > 0 && a[0] == b[0] && b[0] == c[0] {
        lemma_bytes_transitive(a.drop_first(), b.drop_first(), c.drop_first());
    }
}

proof fn lemma_bytes_total(a: Seq<u8>, b: Seq<u8>)
    ensures
        a == b || bytes_less(a, b) || bytes_less(b, a),
    decreases a.len(),
{
    if a.len() > 0 && b.len() > 0 {
        lemma_bytes_total(a.drop_first(), b.drop_first());
        if a.drop_first() == b.drop_first() && a[0] == b[0] {
            assert(a =~= seq![a[0]] + a.drop_first());
            assert(b =~= seq![b[0]] + b.drop_first());
        }
    } else if a.len() == 0 && b.len() == 0 {
        assert(a =~= b);
    }
}

/// The order of keys is strict and total: of two different keys exactly one
/// comes before the other.
pub proof fn lemma_key_order(a: Seq<char>, b: Seq<char>)
    ensures
        !key_less(a, a),
        a != b ==> key_less(a, b) != key_less(b, a),
{
    let x = vstd::utf8::encode_utf8(a);
    let y = vstd::utf8::encode_utf8(b);
    lemma_bytes_irreflexive(x);
    lemma_bytes_total(x, y);
    vstd::utf8::encode_utf8_decode_utf8(a);
    vstd::utf8::encode_utf8_decode_utf8(b);
    if bytes_less(x, y) && bytes_less(y, x) {
        lemma_bytes_transitive(x, y, x);
    }
}

/// Going up is transitive.
pub proof fn lemma_key_transitive(a: Seq<char>, b: Seq<char>, c: Seq<char>)
    requires
        key_less(a, b),
        key_less(b, c),
    ensures
        key_less(a, c),
{
    lemma_bytes_transitive(
        vstd::utf8::encode_utf8(a),
        vstd::utf8::encode_utf8(b),
        vstd::utf8::encode_utf8(c),
    );
}

/// The only row under a key is what the map holds for it.
pub proof fn lemma_row_of_key(rows: Seq<Row>, i: int)
    requires
        in_order(rows),
        0 <= i < rows.len(),
    ensures
        as_map(rows).contains_key(rows[i].0),
        as_map(rows)[rows[i].0] == rows[i].1,
{
    let key = rows[i].0;
    assert(has_key(rows, key));
    let j = choose|j: int| 0 <= j < rows.len() && #[trigger] rows[j].0 == key;
    lemma_key_order(key, key);
    assert(j == i);
}

/// Rows in order that hold the same entries under the same keys are the same.
pub proof fn law_order_is_canonical(a: Seq<Row>, b: Seq<Row>)
    requires
        in_order(a),
        in_order(b),
        as_map(a) == as_map(b),
    ensures
        a == b,
    decreases a.len(),
{
    if a.len() == 0 {
        if b.len() > 0 {
            lemma_row_of_key(b, 0);
            assert(has_key(a, b[0].0));
        }
        assert(a =~= b);
    } else if b.len() == 0 {
        lemma_row_of_key(a, 0);
        assert(has_key(b, a[0].0));
    } else {
        lemma_row_of_key(a, 0);
        lemma_row_of_key(b, 0);
        let i = choose|i: int| 0 <= i < a.len() && #[trigger] a[i].0 == b[0].0;
        let j = choose|j: int| 0 <= j < b.len() && #[trigger] b[j].0 == a[0].0;
        assert(has_key(a, b[0].0));
        assert(has_key(b, a[0].0));
        lemma_key_order(a[0].0, b[0].0);
        assert(a[0].0 == b[0].0);
        assert(a[0] == b[0]);
        let ra = a.drop_first();
        let rb = b.drop_first();
        assert forall|i: int, j: int| 0 <= i < j < ra.len() implies key_less(
            #[trigger] ra[i].0,
            #[trigger] ra[j].0,
        ) by {
            assert(key_less(a[i + 1].0, a[j + 1].0));
        }
        assert forall|i: int, j: int| 0 <= i < j < rb.len() implies key_less(
            #[trigger] rb[i].0,
            #[trigger] rb[j].0,
        ) by {
            assert(key_less(b[i + 1].0, b[j + 1].0));
        }
        lemma_map_of_tail(a);
        lemma_map_of_tail(b);
        assert(as_map(ra) =~= as_map(rb));
        law_order_is_canonical(ra, rb);
        assert(a =~= seq![a[0]] + ra);
        assert(b =~= seq![b[0]] + rb);
    }
}

proof fn lemma_map_of_tail(a: Seq<Row>)
    requires
        in_order(a),
        a.len() > 0,
    ensures
        as_map(a.drop_first()) == as_map(a).remove(a[0].0),
{
    lemma_map_of_removed(a, 0);
    assert(a.remove(0) =~= a.drop_first());
}

proof fn lemma_order_of_removed(rows: Seq<Row>, at: int)
    requires
        in_order(rows),
        0 <= at < rows.len(),
    ensures
        in_order(rows.remove(at)),
{
    let r = rows.remove(at);
    assert forall|i: int, j: int| 0 <= i < j < r.len() implies key_less(
        #[trigger] r[i].0,
        #[trigger] r[j].0,
    ) by {
        let si = if i < at { i } else { i + 1 };
        let sj = if j < at { j } else { j + 1 };
        assert(r[i] == rows[si] && r[j] == rows[sj]);
    }
}

proof fn lemma_map_of_removed(rows: Seq<Row>, at: int)
    requires
        in_order(rows),
        0 <= at < rows.len(),
    ensures
        as_map(rows.remove(at)) == as_map(rows).remove(rows[at].0),
{
    let r = rows.remove(at);
    lemma_order_of_removed(rows, at);
    assert forall|key: Seq<char>| #[trigger]
        has_key(r, key) == (has_key(rows, key) && key != rows[at].0) by {
        if has_key(r, key) {
            let i = choose|i: int| 0 <= i < r.len() && #[trigger] r[i].0 == key;
            let si = if i < at { i } else { i + 1 };
            assert(r[i] == rows[si]);
            lemma_key_order(key, key);
        }
        if has_key(rows, key) && key != rows[at].0 {
            let i = choose|i: int| 0 <= i < rows.len() && #[trigger] rows[i].0 == key;
            let ri = if i < at { i } else { i - 1 };
            assert(r[ri] == rows[i]);
        }
    }
    assert forall|key: Seq<char>| #[trigger] as_map(r).contains_key(key) implies as_map(r)[key]
        == as_map(rows)[key] by {
        let i = choose|i: int| 0 <= i < r.len() && #[trigger] r[i].0 == key;
        let si = if i < at { i } else { i + 1 };
        assert(r[i] == rows[si]);
        lemma_row_of_key(r, i);
        lemma_row_of_key(rows, si);
    }
    assert(as_map(r).dom() =~= as_map(rows).dom().remove(rows[at].0));
    assert(as_map(r) =~= as_map(rows).remove(rows[at].0));
}

/// A row put in its place keeps the order and adds its entry.
pub proof fn lemma_inserted(rows: Seq<Row>, at: int, key: Seq<char>, e: EntryView)
    requires
        in_order(rows),
        0 <= at <= rows.len(),
        forall|i: int| 0 <= i < at ==> key_less(#[trigger] rows[i].0, key),
        forall|i: int| at <= i < rows.len() ==> key_less(key, #[trigger] rows[i].0),
    ensures
        in_order(rows.insert(at, (key, e))),
        as_map(rows.insert(at, (key, e))) == as_map(rows).insert(key, e),
{
    let r = rows.insert(at, (key, e));
    assert forall|i: int, j: int| 0 <= i < j < r.len() implies key_less(
        #[trigger] r[i].0,
        #[trigger] r[j].0,
    ) by {
        let si = if i < at { i } else { i - 1 };
        let sj = if j < at { j } else { j - 1 };
        assert(i != at ==> r[i] == rows[si]);
        assert(j != at ==> r[j] == rows[sj]);
        if i != at && j != at {
            assert(key_less(rows[si].0, rows[sj].0));
        }
    }
    assert(r.remove(at) =~= rows);
    lemma_map_of_removed(r, at);
    lemma_row_of_key(r, at);
    assert(as_map(rows) == as_map(r).remove(key));
    assert(as_map(r) =~= as_map(rows).insert(key, e));
}

proof fn lemma_replaced(rows: Seq<Row>, at: int, e: EntryView)
    requires
        in_order(rows),
        0 <= at < rows.len(),
    ensures
        in_order(rows.update(at, (rows[at].0, e))),
        as_map(rows.update(at, (rows[at].0, e))) == as_map(rows).insert(rows[at].0, e),
{
    let key = rows[at].0;
    let rest = rows.remove(at);
    lemma_order_of_removed(rows, at);
    lemma_map_of_removed(rows, at);
    assert forall|i: int| 0 <= i < at implies key_less(#[trigger] rest[i].0, key) by {
        assert(rest[i] == rows[i]);
    }
    assert forall|i: int| at <= i < rest.len() implies key_less(key, #[trigger] rest[i].0) by {
        assert(rest[i] == rows[i + 1]);
    }
    lemma_inserted(rest, at, key, e);
    assert(rest.insert(at, (key, e)) =~= rows.update(at, (key, e)));
    assert(as_map(rows).remove(key).insert(key, e) =~= as_map(rows).insert(key, e));
}

/// `rows` with `e` recorded under `key`, in place of what was there.
pub open spec fn with_row(rows: Seq<Row>, key: Seq<char>, e: EntryView) -> Seq<Row> {
    choose|r: Seq<Row>| in_order(r) && #[trigger] as_map(r) == as_map(rows).insert(key, e)
}

/// `rows` without what is recorded under `key`.
pub open spec fn without_row(rows: Seq<Row>, key: Seq<char>) -> Seq<Row> {
    choose|r: Seq<Row>| in_order(r) && #[trigger] as_map(r) == as_map(rows).remove(key)
}

/// Rows in order with one more entry are the ones that [`with_row`] speaks of.
pub proof fn lemma_with_row(rows: Seq<Row>, key: Seq<char>, e: EntryView, r: Seq<Row>)
    requires
        in_order(r),
        as_map(r) == as_map(rows).insert(key, e),
    ensures
        r == with_row(rows, key, e),
{
    law_order_is_canonical(r, with_row(rows, key, e));
}

/// Rows in order with one entry less are the ones that [`without_row`] speaks of.
pub proof fn lemma_without_row(rows: Seq<Row>, key: Seq<char>, r: Seq<Row>)
    requires
        in_order(r),
        as_map(r) == as_map(rows).remove(key),
    ensures
        r == without_row(rows, key),
{
    law_order_is_canonical(r, without_row(rows, key));
}

/// The position of the first key that does not come before `key`.
spec fn place_of(rows: Seq<Row>, key: Seq<char>) -> int
    decreases rows.len(),
{
    if rows.len() == 0 || !key_less(rows[0].0, key) {
        0
    } else {
        1 + place_of(rows.drop_first(), key)
    }
}

proof fn lemma_place_of(rows: Seq<Row>, key: Seq<char>)
    requires
        in_order(rows),
    ensures
        0 <= place_of(rows, key) <= rows.len(),
        forall|i: int| 0 <= i < place_of(rows, key) ==> key_less(#[trigger] rows[i].0, key),
        forall|i: int|
            place_of(rows, key) <= i < rows.len() && rows[place_of(rows, key)].0 != key ==> key_less(
                key,
                #[trigger] rows[i].0,
            ),
    decreases rows.len(),
{
    if rows.len() > 0 {
        let rest = rows.drop_first();
        lemma_order_of_removed(rows, 0);
        assert(rows.remove(0) =~= rest);
        lemma_place_of(rest, key);
        let at = place_of(rows, key);
        lemma_key_order(rows[0].0, key);
        assert forall|i: int| 0 <= i < at implies key_less(#[trigger] rows[i].0, key) by {
            if i > 0 {
                assert(rows[i] == rest[i - 1]);
            }
        }
        assert forall|i: int| at <= i < rows.len() && rows[at].0 != key implies key_less(
            key,
            #[trigger] rows[i].0,
        ) by {
            if at == 0 {
                if i > 0 {
                    lemma_key_transitive(key, rows[0].0, rows[i].0);
                }
            } else {
                assert(rows[i] == rest[i - 1]);
                assert(rows[at] == rest[at - 1]);
            }
        }
    }
}

/// Recording an entry keeps the rows in order and changes nothing else.
pub proof fn lemma_recorded(rows: Seq<Row>, key: Seq<char>, e: EntryView)
    requires
        in_order(rows),
    ensures
        in_order(with_row(rows, key, e)),
        as_map(with_row(rows, key, e)) == as_map(rows).insert(key, e),
{
    let at = place_of(rows, key);
    lemma_place_of(rows, key);
    if at < rows.len() && rows[at].0 == key {
        lemma_replaced(rows, at, e);
        lemma_with_row(rows, key, e, rows.update(at, (key, e)));
    } else {
        lemma_inserted(rows, at, key, e);
        lemma_with_row(rows, key, e, rows.insert(at, (key, e)));
    }
}

/// Dropping an entry keeps the rows in order and changes nothing else.
pub proof fn lemma_dropped(rows: Seq<Row>, key: Seq<char>)
    requires
        in_order(rows),
    ensures
        in_order(without_row(rows, key)),
        as_map(without_row(rows, key)) == as_map(rows).remove(key),
{
    if has_key(rows, key) {
        let at = choose|i: int| 0 <= i < rows.len() && #[trigger] rows[i].0 == key;
        lemma_order_of_removed(rows, at);
        lemma_map_of_removed(rows, at);
        lemma_without_row(rows, key, rows.remove(at));
    } else {
        assert(as_map(rows).remove(key) =~= as_map(rows));
        lemma_without_row(rows, key, rows);
    }
}

/// The rows that are marked as live.
pub open spec fn live_rows(rows: Seq<Row>, live: Seq<bool>) -> Seq<Row>
    decreases rows.len(),
{
    if rows.len() == 0 {
        Seq::empty()
    } else if live[0] {
        seq![rows[0]] + live_rows(rows.drop_first(), live.drop_first())
    } else {
        live_rows(rows.drop_first(), live.drop_first())
    }
}

/// A row is among the live rows if and only if it is marked as live.
pub proof fn lemma_live_rows(rows: Seq<Row>, live: Seq<bool>)
    requires
        rows.len() == live.len(),
    ensures
        live_rows(rows, live).len() <= rows.len(),
        forall|r: Row| #[trigger]
            live_rows(rows, live).contains(r) <==> exists|i: int|
                0 <= i < rows.len() && #[trigger] rows[i] == r && live[i],
    decreases rows.len(),
{
    let kept = live_rows(rows, live);
    if rows.len() > 0 {
        let rest = rows.drop_first();
        let lrest = live.drop_first();
        lemma_live_rows(rest, lrest);
        let krest = live_rows(rest, lrest);
        assert forall|r: Row| #[trigger] kept.contains(r) <==> exists|i: int|
            0 <= i < rows.len() && #[trigger] rows[i] == r && live[i] by {
            if kept.contains(r) {
                if live[0] && r == rows[0] {
                    assert(rows[0] == r && live[0]);
                } else {
                    let k = kept.index_of(r);
                    if live[0] {
                        assert(krest[k - 1] == r);
                    }
                    assert(krest.contains(r));
                    let i = choose|i: int|
                        0 <= i < rest.len() && #[trigger] rest[i] == r && lrest[i];
                    assert(rows[i + 1] == r && live[i + 1]);
                }
            }
            if exists|i: int| 0 <= i < rows.len() && #[trigger] rows[i] == r && live[i] {
                let i = choose|i: int| 0 <= i < rows.len() && #[trigger] rows[i] == r && live[i];
                if i == 0 {
                    assert(kept[0] == r);
                } else {
                    assert(rest[i - 1] == r && lrest[i - 1]);
                    assert(krest.contains(r));
                    let k = krest.index_of(r);
                    assert(kept[if live[0] { k + 1 } else { k }] == r);
                }
            }
        }
    }
}

/// Dropping rows keeps the order of the others.
pub proof fn lemma_live_order(rows: Seq<Row>, live: Seq<bool>)
    requires
        rows.len() == live.len(),
        in_order(rows),
    ensures
        in_order(live_rows(rows, live)),
    decreases rows.len(),
{
    if rows.len() > 0 {
        let rest = rows.drop_first();
        lemma_order_of_removed(rows, 0);
        assert(rows.remove(0) =~= rest);
        lemma_live_order(rest, live.drop_first());
        lemma_live_rows(rest, live.drop_first());
        let kept = live_rows(rows, live);
        let krest = live_rows(rest, live.drop_first());
        if live[0] {
            assert forall|i: int, j: int| 0 <= i < j < kept.len() implies key_less(
                #[trigger] kept[i].0,
                #[trigger] kept[j].0,
            ) by {
                assert(kept[j] == krest[j - 1]);
                if i == 0 {
                    assert(krest.contains(krest[j - 1]));
                    let k = choose|k: int|
                        0 <= k < rest.len() && #[trigger] rest[k] == krest[j - 1]
                            && live.drop_first()[k];
                    assert(rows[k + 1] == rest[k]);
                    assert(key_less(rows[0].0, rows[k + 1].0));
                } else {
                    assert(kept[i] == krest[i - 1]);
                }
            }
        }
    }
}

/// Whether text `a` comes before text `b`.
fn text_less(a: &str, b: &str) -> (r: bool)
    ensures
        r == key_less(a@, b@),
{
    let x = a.as_bytes();
    let y = b.as_bytes();
    let mut i: usize = 0;
    proof {
        assert(x@.skip(0) =~= x@);
        assert(y@.skip(0) =~= y@);
    }
    while i < x.len() && i < y.len()
        invariant
            i <= x@.len(),
            i <= y@.len(),
            bytes_less(x@, y@) == bytes_less(x@.skip(i as int), y@.skip(i as int)),
            x@ == vstd::utf8::encode_utf8(a@),
            y@ == vstd::utf8::encode_utf8(b@),
        decreases x@.len() - i,
    {
        if x[i] != y[i] {
            return x[i] < y[i];
        }
        proof {
            assert(x@.skip(i as int).drop_first() =~= x@.skip(i + 1));
            assert(y@.skip(i as int).drop_first() =~= y@.skip(i + 1));
        }
        i = i + 1;
    }
    i < y.len()
}

/// Scheduled deletions by their keys, in the order of the keys.
#[derive(Debug, PartialEq, Eq)]
pub struct EntryMap {
    items: Vec<(String, StateEntry)>,
}

/// The contents of the pairs of a key and an entry.
pub open spec fn rows_of(items: Seq<(String, StateEntry)>) -> Seq<Row> {
    items.map_values(|p: (String, StateEntry)| (p.0@, p.1@))
}

impl View for EntryMap {
    type V = Seq<Row>;

    closed spec fn view(&self) -> Seq<Row> {
        rows_of(self.items@)
    }
}

impl Clone for EntryMap {
    fn clone(&self) -> (m: EntryMap)
        ensures
            m@ == self@,
    {
        proof {
            use_type_invariant(self);
        }
        let mut items: Vec<(String, StateEntry)> = Vec::new();
        let mut i: usize = 0;
        while i < self.items.len()
            invariant
                i <= self.items@.len(),
                rows_of(items@) == rows_of(self.items@).take(i as int),
            decreases self.items@.len() - i,
        {
            let ghost before = rows_of(items@);
            items.push((self.items[i].0.clone(), self.items[i].1.clone()));
            assert(rows_of(items@) =~= before.push(rows_of(self.items@)[i as int]));
            i = i + 1;
            assert(rows_of(items@) =~= rows_of(self.items@).take(i as int));
        }
        assert(rows_of(items@) =~= rows_of(self.items@));
        EntryMap { items }
    }
}

impl EntryMap {
    #[verifier::type_invariant]
    closed spec fn well_formed(self) -> bool {
        in_order(self@)
    }

    /// A map without entries.
    pub fn new() -> (m: EntryMap)
        ensures
            m@ == Seq::<Row>::empty(),
    {
        let items: Vec<(String, StateEntry)> = Vec::new();
        assert(rows_of(items@) =~= Seq::empty());
        EntryMap { items }
    }

    /// The number of entries.
    pub fn len(&self) -> (n: usize)
        ensures
            n == self@.len(),
            in_order(self@),
    {
        proof {
            use_type_invariant(self);
        }
        self.items.len()
    }

    /// Whether there is no entry.
    pub fn is_empty(&self) -> (r: bool)
        ensures
            r == (self@.len() == 0),
    {
        self.items.len() == 0
    }

    /// The key at position `i` in the order of the keys.
    pub fn key_at(&self, i: usize) -> (key: &String)
        requires
            i < self@.len(),
        ensures
            key@ == self@[i as int].0,
    {
        &self.items[i].0
    }

    /// The entry at position `i` in the order of the keys.
    pub fn entry_at(&self, i: usize) -> (e: &StateEntry)
        requires
            i < self@.len(),
        ensures
            e@ == self@[i as int].1,
    {
        &self.items[i].1
    }

    /// The position of the first key that does not come before `key`.
    fn position(&self, key: &str) -> (at: usize)
        ensures
            at <= self@.len(),
            in_order(self@),
            forall|i: int| 0 <= i < at ==> key_less(#[trigger] self@[i].0, key@),
            at < self@.len() && self@[at as int].0 != key@ ==> forall|i: int|
                at <= i < self@.len() ==> key_less(key@, #[trigger] self@[i].0),
            has_key(self@, key@) <==> at < self@.len() && self@[at as int].0 == key@,
    {
        proof {
            use_type_invariant(self);
        }
        let mut at: usize = 0;
        while at < self.items.len() && text_less(self.items[at].0.as_str(), key)
            invariant
                at <= self@.len(),
                in_order(self@),
                self@ == rows_of(self.items@),
                forall|i: int| 0 <= i < at ==> key_less(#[trigger] self@[i].0, key@),
            decreases self@.len() - at,
        {
            assert(self@[at as int].0 == self.items@[at as int].0@);
            at = at + 1;
        }
        proof {
            if at < self@.len() {
                let first = self@[at as int].0;
                assert(first == self.items@[at as int].0@);
                lemma_key_order(first, key@);
                if first != key@ {
                    assert forall|i: int| at <= i < self@.len() implies key_less(
                        key@,
                        #[trigger] self@[i].0,
                    ) by {
                        if i > at {
                            lemma_key_transitive(key@, first, self@[i].0);
                        }
                    }
                }
            }
            lemma_key_order(key@, key@);
            if has_key(self@, key@) {
                let i = choose|i: int| 0 <= i < self@.len() && #[trigger] self@[i].0 == key@;
                assert(i >= at);
            }
        }
        at
    }

    /// The entry under `key`.
    pub fn get(&self, key: &str) -> (r: Option<&StateEntry>)
        ensures
            r is Some <==> as_map(self@).contains_key(key@),
            r is Some ==> r->0@ == as_map(self@)[key@],
    {
        let at: usize = self.position(key);
        if at < self.items.len() && crate::text::same_text(self.items[at].0.as_str(), key) {
            proof {
                lemma_row_of_key(self@, at as int);
            }
            Some(&self.items[at].1)
        } else {
            None
        }
    }

    /// Records `entry` under `key`, in place of what was there.
    pub fn insert(&mut self, key: String, entry: StateEntry)
        ensures
            as_map(final(self)@) == as_map(old(self)@).insert(key@, entry@),
            in_order(final(self)@),
            final(self)@ == with_row(old(self)@, key@, entry@),
    {
        let at: usize = self.position(key.as_str());
        let ghost before = self@;
        let ghost row: Row = (key@, entry@);
        let mut items: Vec<(String, StateEntry)> = Vec::new();
        std::mem::swap(&mut items, &mut self.items);
        if at < items.len() && crate::text::same_text(items[at].0.as_str(), key.as_str()) {
            proof {
                lemma_replaced(before, at as int, entry@);
            }
            items[at] = (key, entry);
            assert(rows_of(items@) =~= before.update(at as int, row));
        } else {
            proof {
                lemma_inserted(before, at as int, key@, entry@);
            }
            items.insert(at, (key, entry));
            assert(rows_of(items@) =~= before.insert(at as int, row));
        }
        self.items = items;
        proof {
            lemma_with_row(before, row.0, row.1, self@);
        }
    }

    /// Takes out the entry under `key`.
    pub fn remove(&mut self, key: &str) -> (r: Option<StateEntry>)
        ensures
            r is Some <==> as_map(old(self)@).contains_key(key@),
            r is Some ==> r->0@ == as_map(old(self)@)[key@],
            as_map(final(self)@) == as_map(old(self)@).remove(key@),
            in_order(final(self)@),
            final(self)@ == without_row(old(self)@, key@),
    {
        let at: usize = self.position(key);
        if at < self.items.len() && crate::text::same_text(self.items[at].0.as_str(), key) {
            proof {
                lemma_row_of_key(self@, at as int);
                lemma_order_of_removed(self@, at as int);
                lemma_map_of_removed(self@, at as int);
                lemma_without_row(self@, key@, self@.remove(at as int));
            }
            Some(self.remove_at(at))
        } else {
            assert(as_map(self@).remove(key@) =~= as_map(self@));
            proof {
                lemma_without_row(self@, key@, self@);
            }
            None
        }
    }

    /// Takes out the entry at position `i`.
    pub fn remove_at(&mut self, i: usize) -> (e: StateEntry)
        requires
            i < old(self)@.len(),
        ensures
            e@ == old(self)@[i as int].1,
            final(self)@ == old(self)@.remove(i as int),
    {
        proof {
            use_type_invariant(&*self);
            lemma_order_of_removed(self@, i as int);
        }
        let ghost before = self@;
        let mut items: Vec<(String, StateEntry)> = Vec::new();
        std::mem::swap(&mut items, &mut self.items);
        let (_key, e) = items.remove(i);
        assert(rows_of(items@) =~= before.remove(i as int));
        self.items = items;
        e
    }

    /// Takes out every entry that `live`, which has one mark for each entry
    /// in the order of the keys, does not mark as live. Returns how many.
    pub fn retain_live(&mut self, live: &Vec<bool>) -> (removed: usize)
        requires
            live@.len() == old(self)@.len(),
        ensures
            final(self)@ == live_rows(old(self)@, live@),
            removed == old(self)@.len() - final(self)@.len(),
    {
        proof {
            use_type_invariant(&*self);
            lemma_live_rows(self@, live@);
            lemma_live_order(self@, live@);
        }
        let ghost before = self@;
        let mut items: Vec<(String, StateEntry)> = Vec::new();
        std::mem::swap(&mut items, &mut self.items);
        let total: usize = live.len();
        let mut i: usize = total;
        let mut removed: usize = 0;
        proof {
            assert(before.skip(i as int) =~= Seq::empty());
            assert(rows_of(items@) =~= before.take(i as int) + live_rows(
                before.skip(i as int),
                live@.skip(i as int),
            ));
        }
        while i > 0
            invariant
                i <= live@.len() == before.len(),
                total == live@.len(),
                removed + i <= total,
                removed + rows_of(items@).len() == before.len(),
                rows_of(items@) == before.take(i as int) + live_rows(
                    before.skip(i as int),
                    live@.skip(i as int),
                ),
            decreases i,
        {
            i = i - 1;
            let ghost tail = live_rows(before.skip(i + 1), live@.skip(i + 1));
            proof {
                assert(before.skip(i as int).drop_first() =~= before.skip(i + 1));
                assert(live@.skip(i as int).drop_first() =~= live@.skip(i + 1));
                assert(before.take(i + 1) =~= before.take(i as int).push(before[i as int]));
            }
            if !live[i] {
                let ghost rows = rows_of(items@);
                items.remove(i);
                removed = removed + 1;
                assert(rows_of(items@) =~= rows.remove(i as int));
                assert(rows.remove(i as int) =~= before.take(i as int) + tail);
            } else {
                assert(rows_of(items@) =~= before.take(i as int) + (seq![before[i as int]]
                    + tail));
            }
        }
        proof {
            assert(before.skip(0) =~= before);
            assert(live@.skip(0) =~= live@);
            assert(rows_of(items@) =~= live_rows(before, live@));
        }
        self.items = items;
        removed
    }
}

proof fn lemma_same_start(a: Seq<u8>, b: Seq<u8>, i: int)
    requires
        0 <= i <= a.len(),
        i <= b.len(),
        a.take(i) == b.take(i),
    ensures
        bytes_less(a, b) == bytes_less(a.skip(i), b.skip(i)),
    decreases i,
{
    if i == 0 {
        assert(a.skip(0) =~= a);
        assert(b.skip(0) =~= b);
    } else {
        assert(a[0] == a.take(i)[0] && b[0] == b.take(i)[0]);
        assert(a.drop_first().take(i - 1) =~= a.take(i).drop_first());
        assert(b.drop_first().take(i - 1) =~= b.take(i).drop_first());
        lemma_same_start(a.drop_first(), b.drop_first(), i - 1);
        assert(a.drop_first().skip(i - 1) =~= a.skip(i));
        assert(b.drop_first().skip(i - 1) =~= b.skip(i));
    }
}

/// Keys are ordered as in a dictionary: where two have the same `i` bytes
/// first, the one with the smaller next byte comes first, and one that ends
/// there comes before one that goes on.
pub proof fn law_keys_are_ordered_by_their_bytes(a: Seq<char>, b: Seq<char>, i: int)
    requires
        0 <= i <= vstd::utf8::encode_utf8(a).len(),
        i < vstd::utf8::encode_utf8(b).len(),
        vstd::utf8::encode_utf8(a).take(i) == vstd::utf8::encode_utf8(b).take(i),
        i < vstd::utf8::encode_utf8(a).len() ==> vstd::utf8::encode_utf8(a)[i]
            < vstd::utf8::encode_utf8(b)[i],
    ensures
        key_less(a, b),
        !key_less(b, a),
{
    let x = vstd::utf8::encode_utf8(a);
    let y = vstd::utf8::encode_utf8(b);
    lemma_same_start(x, y, i);
    lemma_same_start(y, x, i);
}

/// The number of `true` in `live`.
pub open spec fn live_count(live: Seq<bool>) -> nat
    decreases live.len(),
{
    if live.len() == 0 {
        0
    } else {
        live_count(live.drop_first()) + (if live[0] {
            1nat
        } else {
            0nat
        })
    }
}

/// As many rows are live as are marked as live.
pub proof fn law_live_rows_are_counted(rows: Seq<Row>, live: Seq<bool>)
    requires
        rows.len() == live.len(),
    ensures
        live_rows(rows, live).len() == live_count(live),
    decreases rows.len(),
{
    if rows.len() > 0 {
        law_live_rows_are_counted(rows.drop_first(), live.drop_first());
    }
}

} // verus!
