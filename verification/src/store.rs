//! The storage rules, held in memory: sources bound to spaces, items
//! deduplicated by Telegram message, soft deletion, and per-agent processed
//! marks. [`ItemStore`] keeps them as three tables and implements every
//! operation of the storage port over them; its contracts are stated over
//! [`StoreView`], whose transitions are the rules themselves.

use vstd::prelude::*;

use crate::domain::error::{Error, Result};
use crate::domain::item::{Item, ItemId, NewItem, TelegramMetadata};
use crate::domain::source::Source;
use crate::text::{str_eq, to_string};

verus! {

/// A stored item and its tombstone: `deleted_at` is set once it is deleted.
pub struct StoredRow {
    pub item: Item,
    pub deleted_at: Option<i64>,
}

/// `agent_slug` has processed item `item_id` at `processed_at`.
pub struct ProcessedMark {
    pub agent_slug: String,
    pub item_id: ItemId,
    pub processed_at: i64,
}

/// The contents of a store: its three tables, and the id the next new item
/// receives.
pub struct StoreView {
    pub sources: Seq<Source>,
    pub rows: Seq<StoredRow>,
    pub marks: Seq<(Seq<char>, ItemId, i64)>,
    pub next_id: i64,
}

/// `a` sorts strictly before `b`, character by character.
pub open spec fn lex_lt(a: Seq<char>, b: Seq<char>) -> bool
    decreases a.len(),
{
    if a.len() == 0 {
        b.len() > 0
    } else if b.len() == 0 {
        false
    } else if a[0] != b[0] {
        (a[0] as int) < (b[0] as int)
    } else {
        lex_lt(a.drop_first(), b.drop_first())
    }
}

/// Whether `a` sorts strictly before `b`, character by character.
pub fn lex_less(a: &str, b: &str) -> (r: bool)
    ensures
        r == lex_lt(a@, b@),
{
    let av = crate::text::chars_of(a);
    let bv = crate::text::chars_of(b);
    let mut i: usize = 0;
    assert(a@.skip(0) =~= a@);
    assert(b@.skip(0) =~= b@);
    while i < av.len() && i < bv.len() && av[i] == bv[i]
        invariant
            av@ == a@,
            bv@ == b@,
            i <= av.len(),
            i <= bv.len(),
            lex_lt(a@, b@) == lex_lt(a@.skip(i as int), b@.skip(i as int)),
        decreases av.len() - i,
    {
        assert(a@.skip(i as int).drop_first() =~= a@.skip(i + 1));
        assert(b@.skip(i as int).drop_first() =~= b@.skip(i + 1));
        i = i + 1;
    }
    if i == av.len() {
        assert(a@.skip(i as int).len() == 0);
        i < bv.len()
    } else if i == bv.len() {
        assert(b@.skip(i as int).len() == 0);
        false
    } else {
        assert(a@.skip(i as int)[0] == av@[i as int]);
        assert(b@.skip(i as int)[0] == bv@[i as int]);
        av[i] < bv[i]
    }
}

/// The row that `item` becomes when stored with `id` at `now`.
pub open spec fn row_of(item: NewItem, id: i64, now: i64) -> StoredRow {
    StoredRow {
        item: Item {
            id: ItemId(id),
            source: item.source,
            space: item.space,
            kind: item.kind,
            text: item.text,
            telegram: item.telegram,
            created_at: now,
        },
        deleted_at: None,
    }
}

/// The dedup key of a row: the Telegram message it came from.
pub open spec fn row_key(r: StoredRow) -> (i64, i64) {
    (r.item.telegram.chat_id, r.item.telegram.message_id)
}

/// Index of the row of `rows` whose key is `key`, if any (the last such).
pub open spec fn find_key(rows: Seq<StoredRow>, key: (i64, i64)) -> Option<int>
    decreases rows.len(),
{
    if rows.len() == 0 {
        None
    } else if row_key(rows.last()) == key {
        Some(rows.len() - 1)
    } else {
        find_key(rows.drop_last(), key)
    }
}

/// Index of the row of `rows` with id `id`, if any (the last such).
pub open spec fn find_id(rows: Seq<StoredRow>, id: ItemId) -> Option<int>
    decreases rows.len(),
{
    if rows.len() == 0 {
        None
    } else if rows.last().item.id == id {
        Some(rows.len() - 1)
    } else {
        find_id(rows.drop_last(), id)
    }
}

/// Whether `agent` has marked item `id` processed.
pub open spec fn is_marked(marks: Seq<(Seq<char>, ItemId, i64)>, agent: Seq<char>, id: ItemId) -> bool {
    exists|k: int| 0 <= k < marks.len() && #[trigger] marks[k].0 == agent && marks[k].1 == id
}

/// Whether row `r` is waiting for `agent` in `space`: in that space, not
/// deleted, not yet marked by that agent.
pub open spec fn waiting(r: StoredRow, marks: Seq<(Seq<char>, ItemId, i64)>, agent: Seq<char>, space: Seq<char>) -> bool {
    r.item.space.slug() == space && r.deleted_at is None && !is_marked(marks, agent, r.item.id)
}

/// The items of `rows` waiting for `agent` in `space`, in row order.
pub open spec fn waiting_items(
    rows: Seq<StoredRow>,
    marks: Seq<(Seq<char>, ItemId, i64)>,
    agent: Seq<char>,
    space: Seq<char>,
) -> Seq<Item>
    decreases rows.len(),
{
    if rows.len() == 0 {
        Seq::empty()
    } else {
        let before = waiting_items(rows.drop_last(), marks, agent, space);
        if waiting(rows.last(), marks, agent, space) {
            before.push(rows.last().item)
        } else {
            before
        }
    }
}

/// Index of the source of `sources` whose slug is `slug`, if any.
pub open spec fn find_slug(sources: Seq<Source>, slug: Seq<char>) -> Option<int>
    decreases sources.len(),
{
    if sources.len() == 0 {
        None
    } else if sources.last().slug@ == slug {
        Some(sources.len() - 1)
    } else {
        find_slug(sources.drop_last(), slug)
    }
}

/// How many sources of `sources` sort before `slug`.
pub open spec fn count_before(sources: Seq<Source>, slug: Seq<char>) -> nat
    decreases sources.len(),
{
    if sources.len() == 0 {
        0
    } else {
        count_before(sources.drop_last(), slug) + if lex_lt(sources.last().slug@, slug) {
            1nat
        } else {
            0nat
        }
    }
}

/// Inserting `items` in order at `now`, all or nothing: the store after all
/// of them and their ids, or the store unchanged and `None` when one fails.
pub open spec fn inserted_all(v: StoreView, items: Seq<NewItem>, now: i64) -> (StoreView, Option<Seq<ItemId>>)
    decreases items.len(),
{
    if items.len() == 0 {
        (v, Some(Seq::empty()))
    } else {
        let (w, ids) = inserted_all(v, items.drop_last(), now);
        match ids {
            None => (v, None),
            Some(ids) => {
                let (x, id) = w.inserted(items.last(), now);
                match id {
                    None => (v, None),
                    Some(id) => (x, Some(ids.push(id))),
                }
            },
        }
    }
}

impl StoreView {
    /// The invariant of a store: rows in strictly increasing id order, all
    /// below `next_id`; one row per Telegram message; marks only for stored
    /// items and at most one per agent and item; sources sorted by slug.
    pub open spec fn wf(self) -> bool {
        &&& 1 <= self.next_id
        &&& forall|i: int|
            0 <= i < self.rows.len() ==> 1 <= #[trigger] self.rows[i].item.id.0 < self.next_id
        &&& forall|i: int, j: int|
            0 <= i < j < self.rows.len() ==> #[trigger] self.rows[i].item.id.0
                < #[trigger] self.rows[j].item.id.0
        &&& forall|i: int, j: int|
            0 <= i < j < self.rows.len() ==> row_key(#[trigger] self.rows[i]) != row_key(
                #[trigger] self.rows[j],
            )
        &&& forall|k: int|
            0 <= k < self.marks.len() ==> find_id(self.rows, #[trigger] self.marks[k].1) is Some
        &&& forall|k: int, l: int|
            0 <= k < l < self.marks.len() ==> !(#[trigger] self.marks[k].0
                == #[trigger] self.marks[l].0 && self.marks[k].1 == self.marks[l].1)
        &&& forall|i: int, j: int|
            0 <= i < j < self.sources.len() ==> lex_lt(
                #[trigger] self.sources[i].slug@,
                #[trigger] self.sources[j].slug@,
            )
    }

    /// The store that a fresh database starts as.
    pub open spec fn empty() -> StoreView {
        StoreView { sources: Seq::empty(), rows: Seq::empty(), marks: Seq::empty(), next_id: 1 }
    }

    /// Inserting `item` at `now`: a message already stored keeps its row and
    /// answers its id; a new one gets the next id, unless ids ran out.
    pub open spec fn inserted(self, item: NewItem, now: i64) -> (StoreView, Option<ItemId>) {
        match find_key(self.rows, (item.telegram.chat_id, item.telegram.message_id)) {
            Some(i) => (self, Some(self.rows[i].item.id)),
            None => if self.next_id < i64::MAX {
                (
                    StoreView {
                        rows: self.rows.push(row_of(item, self.next_id, now)),
                        next_id: (self.next_id + 1) as i64,
                        ..self
                    },
                    Some(ItemId(self.next_id)),
                )
            } else {
                (self, None)
            },
        }
    }

    /// The item with `id`, unless it is missing or deleted.
    pub open spec fn get(self, id: ItemId) -> Option<Item> {
        match find_id(self.rows, id) {
            Some(i) => if self.rows[i].deleted_at is None {
                Some(self.rows[i].item)
            } else {
                None
            },
            None => None,
        }
    }

    /// Deleting `id` at `now`: a stored, not yet deleted item gets its
    /// tombstone; anything else is left as it is.
    pub open spec fn deleted(self, id: ItemId, now: i64) -> StoreView {
        match find_id(self.rows, id) {
            Some(i) => if self.rows[i].deleted_at is None {
                StoreView {
                    rows: self.rows.update(
                        i,
                        StoredRow { item: self.rows[i].item, deleted_at: Some(now) },
                    ),
                    ..self
                }
            } else {
                self
            },
            None => self,
        }
    }

    /// Marking `id` processed by `agent` at `now`: refused (`None`) when no
    /// item has that id; unchanged when the mark exists; added otherwise.
    pub open spec fn marked(self, agent: Seq<char>, id: ItemId, now: i64) -> Option<StoreView> {
        if find_id(self.rows, id) is None {
            None
        } else if is_marked(self.marks, agent, id) {
            Some(self)
        } else {
            Some(StoreView { marks: self.marks.push((agent, id, now)), ..self })
        }
    }

    /// The items waiting for `agent` in `space`, oldest first.
    pub open spec fn pending(self, agent: Seq<char>, space: Seq<char>) -> Seq<Item> {
        waiting_items(self.rows, self.marks, agent, space)
    }

    /// At most `limit` of the items waiting for `agent` in `space`, oldest first.
    pub open spec fn fetched(self, agent: Seq<char>, space: Seq<char>, limit: u32) -> Seq<Item> {
        let p = self.pending(agent, space);
        if p.len() <= limit {
            p
        } else {
            p.take(limit as int)
        }
    }

    /// Registering `source`: a known slug gets the new space; a new slug is
    /// inserted in slug order.
    pub open spec fn upserted(self, source: Source) -> StoreView {
        match find_slug(self.sources, source.slug@) {
            Some(i) => StoreView { sources: self.sources.update(i, source), ..self },
            None => StoreView {
                sources: self.sources.insert(count_before(self.sources, source.slug@) as int, source),
                ..self
            },
        }
    }
}


proof fn lemma_find_key_none(rows: Seq<StoredRow>, key: (i64, i64))
    ensures
        find_key(rows, key) is None <==> forall|i: int| 0 <= i < rows.len() ==> row_key(#[trigger] rows[i]) != key,
        find_key(rows, key) matches Some(i) ==> 0 <= i < rows.len() && row_key(rows[i]) == key,
    decreases rows.len(),
{
    if rows.len() > 0 {
        let init = rows.drop_last();
        lemma_find_key_none(init, key);
        if find_key(rows, key) is None {
            assert forall|i: int| 0 <= i < rows.len() implies row_key(#[trigger] rows[i]) != key by {
                if i < rows.len() - 1 {
                    assert(rows[i] == init[i]);
                }
            }
        }
        if let Some(i) = find_key(init, key) {
            assert(rows[i] == init[i]);
        }
        if forall|i: int| 0 <= i < rows.len() ==> row_key(#[trigger] rows[i]) != key {
            assert forall|i: int| 0 <= i < init.len() implies row_key(#[trigger] init[i]) != key by {
                assert(rows[i] == init[i]);
            }
            assert(row_key(rows[rows.len() - 1]) != key);
        }
    }
}

proof fn lemma_find_id_props(rows: Seq<StoredRow>, id: ItemId)
    ensures
        find_id(rows, id) is None <==> forall|i: int| 0 <= i < rows.len() ==> (#[trigger] rows[i]).item.id != id,
        find_id(rows, id) matches Some(i) ==> 0 <= i < rows.len() && rows[i].item.id == id,
    decreases rows.len(),
{
    if rows.len() > 0 {
        let init = rows.drop_last();
        lemma_find_id_props(init, id);
        if find_id(rows, id) is None {
            assert forall|i: int| 0 <= i < rows.len() implies (#[trigger] rows[i]).item.id != id by {
                if i < rows.len() - 1 {
                    assert(rows[i] == init[i]);
                }
            }
        }
        if let Some(i) = find_id(init, id) {
            assert(rows[i] == init[i]);
        }
        if forall|i: int| 0 <= i < rows.len() ==> (#[trigger] rows[i]).item.id != id {
            assert forall|i: int| 0 <= i < init.len() implies (#[trigger] init[i]).item.id != id by {
                assert(rows[i] == init[i]);
            }
            assert(rows[rows.len() - 1].item.id != id);
        }
    }
}

/// With distinct ids, the row found for `id` is the one holding it.
proof fn lemma_find_id_unique(rows: Seq<StoredRow>, id: ItemId, j: int)
    requires
        0 <= j < rows.len(),
        rows[j].item.id == id,
        forall|a: int, b: int| 0 <= a < b < rows.len() ==> #[trigger] rows[a].item.id.0 < #[trigger] rows[b].item.id.0,
    ensures
        find_id(rows, id) == Some(j),
    decreases rows.len(),
{
    lemma_find_id_props(rows, id);
    if j < rows.len() - 1 {
        let init = rows.drop_last();
        assert(rows[rows.len() - 1].item.id.0 > rows[j].item.id.0);
        assert(init[j] == rows[j]);
        lemma_find_id_unique(init, id, j);
    }
}

/// A row whose id is above every stored id leaves the lookups of the
/// stored ids unchanged.
proof fn lemma_find_id_push(rows: Seq<StoredRow>, r: StoredRow, id: ItemId)
    requires
        r.item.id != id,
    ensures
        find_id(rows.push(r), id) == find_id(rows, id),
{
    assert(rows.push(r).drop_last() =~= rows);
}

proof fn lemma_find_id_update(rows: Seq<StoredRow>, i: int, r: StoredRow, id: ItemId)
    requires
        0 <= i < rows.len(),
        r.item.id == rows[i].item.id,
    ensures
        find_id(rows.update(i, r), id) == find_id(rows, id),
    decreases rows.len(),
{
    if rows.len() > 0 {
        let u = rows.update(i, r);
        if i < rows.len() - 1 {
            assert(u.drop_last() =~= rows.drop_last().update(i, r));
            lemma_find_id_update(rows.drop_last(), i, r, id);
        } else {
            assert(u.drop_last() =~= rows.drop_last());
        }
    }
}

proof fn lemma_lex_irreflexive(a: Seq<char>)
    ensures
        !lex_lt(a, a),
    decreases a.len(),
{
    if a.len() > 0 {
        lemma_lex_irreflexive(a.drop_first());
    }
}

proof fn lemma_lex_transitive(a: Seq<char>, b: Seq<char>, c: Seq<char>)
    requires
        lex_lt(a, b),
        lex_lt(b, c),
    ensures
        lex_lt(a, c),
    decreases a.len(),
{
    if a.len() > 0 && b.len() > 0 && c.len() > 0 && a[0] == b[0] && b[0] == c[0] {
        lemma_lex_transitive(a.drop_first(), b.drop_first(), c.drop_first());
    }
}

proof fn lemma_lex_total(a: Seq<char>, b: Seq<char>)
    requires
        a != b,
    ensures
        lex_lt(a, b) || lex_lt(b, a),
    decreases a.len(),
{
    if a.len() > 0 && b.len() > 0 && a[0] == b[0] {
        if a.drop_first() == b.drop_first() {
            assert(a =~= seq![a[0]] + a.drop_first());
            assert(b =~= seq![b[0]] + b.drop_first());
        }
        lemma_lex_total(a.drop_first(), b.drop_first());
    } else if a.len() > 0 && b.len() > 0 {
        assert((a[0] as int) != (b[0] as int));
    } else if a.len() == 0 && b.len() == 0 {
        assert(a =~= b);
    }
}

proof fn lemma_lex_asymmetric(a: Seq<char>, b: Seq<char>)
    requires
        lex_lt(a, b),
    ensures
        !lex_lt(b, a),
{
    if lex_lt(b, a) {
        lemma_lex_transitive(a, b, a);
        lemma_lex_irreflexive(a);
    }
}

/// Sorted slugs.
pub open spec fn sorted_slugs(s: Seq<Source>) -> bool {
    forall|i: int, j: int| 0 <= i < j < s.len() ==> lex_lt(#[trigger] s[i].slug@, #[trigger] s[j].slug@)
}

proof fn lemma_find_slug_props(s: Seq<Source>, slug: Seq<char>)
    ensures
        find_slug(s, slug) is None <==> forall|i: int| 0 <= i < s.len() ==> (#[trigger] s[i]).slug@ != slug,
        find_slug(s, slug) matches Some(i) ==> 0 <= i < s.len() && s[i].slug@ == slug,
    decreases s.len(),
{
    if s.len() > 0 {
        let init = s.drop_last();
        lemma_find_slug_props(init, slug);
        if find_slug(s, slug) is None {
            assert forall|i: int| 0 <= i < s.len() implies (#[trigger] s[i]).slug@ != slug by {
                if i < s.len() - 1 {
                    assert(s[i] == init[i]);
                }
            }
        }
        if let Some(i) = find_slug(init, slug) {
            assert(s[i] == init[i]);
        }
        if forall|i: int| 0 <= i < s.len() ==> (#[trigger] s[i]).slug@ != slug {
            assert forall|i: int| 0 <= i < init.len() implies (#[trigger] init[i]).slug@ != slug by {
                assert(s[i] == init[i]);
            }
            assert(s[s.len() - 1].slug@ != slug);
        }
    }
}

/// In a sorted list without `slug`, the sources before `slug` are exactly
/// the first `count_before` ones.
proof fn lemma_count_before_splits(s: Seq<Source>, slug: Seq<char>)
    requires
        sorted_slugs(s),
        forall|i: int| 0 <= i < s.len() ==> (#[trigger] s[i]).slug@ != slug,
    ensures
        count_before(s, slug) <= s.len(),
        forall|k: int| 0 <= k < count_before(s, slug) ==> lex_lt(#[trigger] s[k].slug@, slug),
        forall|k: int| count_before(s, slug) <= k < s.len() ==> lex_lt(slug, #[trigger] s[k].slug@),
    decreases s.len(),
{
    if s.len() > 0 {
        let init = s.drop_last();
        let last = s[s.len() - 1];
        assert forall|i: int, j: int| 0 <= i < j < init.len() implies lex_lt(#[trigger] init[i].slug@, #[trigger] init[j].slug@) by {
            assert(init[i] == s[i] && init[j] == s[j]);
        }
        assert forall|i: int| 0 <= i < init.len() implies (#[trigger] init[i]).slug@ != slug by {
            assert(init[i] == s[i]);
        }
        lemma_count_before_splits(init, slug);
        let c = count_before(init, slug);
        if lex_lt(last.slug@, slug) {
            // everything before the last sorts before it, hence before `slug`
            assert forall|k: int| 0 <= k < init.len() implies lex_lt(#[trigger] init[k].slug@, slug) by {
                assert(init[k] == s[k]);
                assert(lex_lt(s[k].slug@, s[s.len() - 1].slug@));
                lemma_lex_transitive(init[k].slug@, last.slug@, slug);
            }
            if c < init.len() {
                assert(lex_lt(slug, init[c as int].slug@));
                lemma_lex_asymmetric(init[c as int].slug@, slug);
            }
            assert forall|k: int| 0 <= k < count_before(s, slug) implies lex_lt(#[trigger] s[k].slug@, slug) by {
                if k < init.len() {
                    assert(init[k] == s[k]);
                }
            }
        } else {
            lemma_lex_total(last.slug@, slug);
            assert forall|k: int| 0 <= k < count_before(s, slug) implies lex_lt(#[trigger] s[k].slug@, slug) by {
                assert(init[k] == s[k]);
            }
            assert forall|k: int| count_before(s, slug) <= k < s.len() implies lex_lt(slug, #[trigger] s[k].slug@) by {
                if k < init.len() {
                    assert(init[k] == s[k]);
                }
            }
        }
    }
}

/// The items waiting in a shorter prefix of the rows are a prefix of those
/// waiting in a longer one.
proof fn lemma_waiting_prefix(
    rows: Seq<StoredRow>,
    marks: Seq<(Seq<char>, ItemId, i64)>,
    agent: Seq<char>,
    space: Seq<char>,
    i: int,
    j: int,
)
    requires
        0 <= i <= j <= rows.len(),
    ensures
        waiting_items(rows.take(i), marks, agent, space).len() <= waiting_items(rows.take(j), marks, agent, space).len(),
        waiting_items(rows.take(j), marks, agent, space).take(
            waiting_items(rows.take(i), marks, agent, space).len() as int,
        ) == waiting_items(rows.take(i), marks, agent, space),
    decreases j - i,
{
    let wi = waiting_items(rows.take(i), marks, agent, space);
    if i == j {
        assert(wi.take(wi.len() as int) =~= wi);
    } else {
        lemma_waiting_prefix(rows, marks, agent, space, i, j - 1);
        assert(rows.take(j).drop_last() =~= rows.take(j - 1));
        let wm = waiting_items(rows.take(j - 1), marks, agent, space);
        let wj = waiting_items(rows.take(j), marks, agent, space);
        assert(wj.take(wi.len() as int) =~= wm.take(wi.len() as int));
    }
}

/// Once a batch fails, inserting more items still fails and leaves the
/// store as it was.
proof fn lemma_inserted_all_fails_on(v: StoreView, items: Seq<NewItem>, now: i64, k: int)
    requires
        0 <= k <= items.len(),
        inserted_all(v, items.take(k), now).1 is None,
    ensures
        inserted_all(v, items, now) == (v, None::<Seq<ItemId>>),
    decreases items.len() - k,
{
    if k < items.len() {
        assert(items.take(k + 1).drop_last() =~= items.take(k));
        lemma_inserted_all_fails_on(v, items, now, k + 1);
    } else {
        assert(items.take(k) =~= items);
    }
}

/// Exec copy of an optional string.
fn clone_opt_string(s: &Option<String>) -> (r: Option<String>)
    ensures
        r == *s,
{
    match s {
        Some(x) => Some(x.clone()),
        None => None,
    }
}

/// An exact copy of `item`.
fn clone_item(item: &Item) -> (r: Item)
    ensures
        r == *item,
{
    Item {
        id: item.id,
        source: item.source.clone(),
        space: item.space.duplicate(),
        kind: item.kind,
        text: item.text.clone(),
        telegram: TelegramMetadata {
            chat_id: item.telegram.chat_id,
            message_id: item.telegram.message_id,
            user_id: item.telegram.user_id,
            username: clone_opt_string(&item.telegram.username),
            date: item.telegram.date,
        },
        created_at: item.created_at,
    }
}

/// An exact copy of `source`.
fn clone_source(source: &Source) -> (r: Source)
    ensures
        r == *source,
{
    Source { slug: source.slug.clone(), space: source.space.duplicate() }
}

/// The in-memory tables of the storage rules.
pub struct ItemStore {
    sources: Vec<Source>,
    rows: Vec<StoredRow>,
    marks: Vec<ProcessedMark>,
    next_id: i64,
}

/// The view of a processed mark.
pub open spec fn mark_view(m: ProcessedMark) -> (Seq<char>, ItemId, i64) {
    (m.agent_slug@, m.item_id, m.processed_at)
}

impl View for ItemStore {
    type V = StoreView;

    closed spec fn view(&self) -> StoreView {
        StoreView {
            sources: self.sources@,
            rows: self.rows@,
            marks: self.marks@.map_values(|m: ProcessedMark| mark_view(m)),
            next_id: self.next_id,
        }
    }
}

/// The message for an exhausted id space.
pub const IDS_EXHAUSTED: &'static str = "item ids exhausted";

/// The message for a mark of an item that was never stored.
pub const FOREIGN_KEY_FAILED: &'static str = "FOREIGN KEY constraint failed";

impl ItemStore {
    /// An empty store.
    pub fn new() -> (r: Self)
        ensures
            r@ == StoreView::empty(),
            r@.wf(),
    {
        let r = ItemStore { sources: Vec::new(), rows: Vec::new(), marks: Vec::new(), next_id: 1 };
        assert(r@.marks =~= Seq::<(Seq<char>, ItemId, i64)>::empty());
        r
    }

    fn key_index(&self, chat_id: i64, message_id: i64) -> (r: Option<usize>)
        ensures
            match r {
                Some(i) => find_key(self@.rows, (chat_id, message_id)) == Some(i as int) && i
                    < self@.rows.len(),
                None => find_key(self@.rows, (chat_id, message_id)) is None,
            },
    {
        let ghost rows = self.rows@;
        let mut j: usize = self.rows.len();
        assert(rows.take(j as int) =~= rows);
        while j > 0
            invariant
                j <= rows.len(),
                rows == self.rows@,
                find_key(rows, (chat_id, message_id)) == find_key(rows.take(j as int), (chat_id, message_id)),
            decreases j,
        {
            let t = &self.rows[j - 1].item.telegram;
            assert(rows.take(j as int).last() == rows[j - 1]);
            if t.chat_id == chat_id && t.message_id == message_id {
                return Some(j - 1);
            }
            assert(rows.take(j as int).drop_last() =~= rows.take(j - 1));
            j = j - 1;
        }
        None
    }

    fn id_index(&self, id: ItemId) -> (r: Option<usize>)
        ensures
            match r {
                Some(i) => find_id(self@.rows, id) == Some(i as int) && i < self@.rows.len(),
                None => find_id(self@.rows, id) is None,
            },
    {
        let ghost rows = self.rows@;
        let mut j: usize = self.rows.len();
        assert(rows.take(j as int) =~= rows);
        while j > 0
            invariant
                j <= rows.len(),
                rows == self.rows@,
                find_id(rows, id) == find_id(rows.take(j as int), id),
            decreases j,
        {
            assert(rows.take(j as int).last() == rows[j - 1]);
            if self.rows[j - 1].item.id.0 == id.0 {
                return Some(j - 1);
            }
            assert(rows.take(j as int).drop_last() =~= rows.take(j - 1));
            j = j - 1;
        }
        None
    }

    /// Persists `item` at `now` and answers its id. A message already stored
    /// (deleted or not) keeps its row and answers the id it had.
    pub fn insert_item(&mut self, item: NewItem, now: i64) -> (r: Result<ItemId>)
        requires
            old(self)@.wf(),
        ensures
            final(self)@.wf(),
            final(self)@ == old(self)@.inserted(item, now).0,
            match old(self)@.inserted(item, now).1 {
                Some(id) => r == Ok::<ItemId, Error>(id),
                None => (r matches Err(Error::Storage(m)) && m@ == IDS_EXHAUSTED@),
            },
    {
        let ghost v = self@;
        let key = (item.telegram.chat_id, item.telegram.message_id);
        match self.key_index(item.telegram.chat_id, item.telegram.message_id) {
            Some(i) => {
                return Ok(self.rows[i].item.id);
            },
            None => {},
        }
        if self.next_id == i64::MAX {
            return Err(Error::Storage(to_string(IDS_EXHAUSTED)));
        }
        let id = self.next_id;
        let row = StoredRow {
            item: Item {
                id: ItemId(id),
                source: item.source,
                space: item.space,
                kind: item.kind,
                text: item.text,
                telegram: item.telegram,
                created_at: now,
            },
            deleted_at: None,
        };
        self.rows.push(row);
        self.next_id = id + 1;
        proof {
            let w = self@;
            assert(w.marks =~= v.marks);
            assert(w.sources == v.sources);
            assert(w.rows =~= v.rows.push(row_of(item, id, now)));
            lemma_find_key_none(v.rows, key);
            assert forall|k: int| 0 <= k < w.marks.len() implies find_id(w.rows, #[trigger] w.marks[k].1) is Some by {
                let mid = w.marks[k].1;
                assert(find_id(v.rows, mid) is Some);
                lemma_find_id_props(v.rows, mid);
                let j = find_id(v.rows, mid)->0;
                assert(v.rows[j].item.id.0 < id);
                lemma_find_id_push(v.rows, row_of(item, id, now), mid);
            }
            assert forall|a: int, b: int| 0 <= a < b < w.rows.len() implies row_key(#[trigger] w.rows[a]) != row_key(#[trigger] w.rows[b]) by {
                if b == w.rows.len() - 1 {
                    assert(w.rows[a] == v.rows[a]);
                } else {
                    assert(w.rows[a] == v.rows[a] && w.rows[b] == v.rows[b]);
                }
            }
            assert forall|a: int, b: int| 0 <= a < b < w.rows.len() implies #[trigger] w.rows[a].item.id.0 < #[trigger] w.rows[b].item.id.0 by {
                assert(w.rows[a] == v.rows[a]);
                assert(v.rows[a].item.id.0 < v.next_id);
                if b == w.rows.len() - 1 {
                    assert(w.rows[b] == row_of(item, id, now));
                    assert(w.rows[b].item.id.0 == id);
                }
                if b < w.rows.len() - 1 {
                    assert(w.rows[b] == v.rows[b]);
                }
            }
        }
        Ok(ItemId(id))
    }

    /// Persists `items` in order at `now`, all or nothing, and answers their
    /// ids; on failure the store is left as it was.
    pub fn insert_items(&mut self, items: Vec<NewItem>, now: i64) -> (r: Result<Vec<ItemId>>)
        requires
            old(self)@.wf(),
        ensures
            final(self)@.wf(),
            final(self)@ == inserted_all(old(self)@, items@, now).0,
            match inserted_all(old(self)@, items@, now).1 {
                Some(ids) => (r matches Ok(v) && v@ == ids),
                None => (r matches Err(Error::Storage(m)) && m@ == IDS_EXHAUSTED@),
            },
    {
        let ghost v = self@;
        let ghost all = items@;
        let saved_len = self.rows.len();
        let saved_next = self.next_id;
        let mut ids: Vec<ItemId> = Vec::new();
        for item in it: items
            invariant
                it.seq() == all,
                all == items@,
                v == old(self)@,
                self@.wf(),
                v.wf(),
                saved_len == v.rows.len(),
                saved_next == v.next_id,
                inserted_all(v, all.take(it.index() as int), now) == (self@, Some(ids@)),
                self@.sources == v.sources,
                self@.marks == v.marks,
                self@.rows.len() >= v.rows.len(),
                self@.rows.take(v.rows.len() as int) == v.rows,
        {
            let ghost k = it.index() as int;
            let ghost before = self@;
            assert(all.take(k + 1).drop_last() =~= all.take(k));
            assert(all.take(k + 1).last() == all[k]);
            match self.insert_item(item, now) {
                Ok(id) => {
                    ids.push(id);
                    proof {
                        let w = self@;
                        if w.rows.len() > before.rows.len() {
                            assert(w.rows.take(v.rows.len() as int) =~= before.rows.take(v.rows.len() as int));
                        }
                    }
                },
                Err(e) => {
                    self.rows.truncate(saved_len);
                    self.next_id = saved_next;
                    proof {
                        assert(before.inserted(all[k], now).1 is None);
                        assert(inserted_all(v, all.take(k), now) == (before, Some(ids@)));
                        assert(inserted_all(v, all.take(k + 1), now).1 is None);
                        lemma_inserted_all_fails_on(v, all, now, k + 1);
                        assert(self@.rows =~= v.rows);
                        assert(self@.marks =~= v.marks);
                        assert(self@ == v);
                    }
                    return Err(e);
                },
            }
        }
        assert(all.take(all.len() as int) =~= all);
        Ok(ids)
    }

    fn slug_index(&self, slug: &str) -> (r: Option<usize>)
        ensures
            match r {
                Some(i) => find_slug(self@.sources, slug@) == Some(i as int) && i < self@.sources.len(),
                None => find_slug(self@.sources, slug@) is None,
            },
    {
        let ghost srcs = self.sources@;
        let mut j: usize = self.sources.len();
        assert(srcs.take(j as int) =~= srcs);
        while j > 0
            invariant
                j <= srcs.len(),
                srcs == self.sources@,
                find_slug(srcs, slug@) == find_slug(srcs.take(j as int), slug@),
            decreases j,
        {
            assert(srcs.take(j as int).last() == srcs[j - 1]);
            if str_eq(self.sources[j - 1].slug.as_str(), slug) {
                return Some(j - 1);
            }
            assert(srcs.take(j as int).drop_last() =~= srcs.take(j - 1));
            j = j - 1;
        }
        None
    }

    fn has_mark(&self, agent: &str, id: ItemId) -> (r: bool)
        ensures
            r == is_marked(self@.marks, agent@, id),
    {
        let mut k: usize = 0;
        while k < self.marks.len()
            invariant
                k <= self.marks.len(),
                forall|l: int| 0 <= l < k ==> !(#[trigger] self@.marks[l].0 == agent@ && self@.marks[l].1 == id),
            decreases self.marks.len() - k,
        {
            assert(self@.marks[k as int] == mark_view(self.marks@[k as int]));
            if self.marks[k].item_id.0 == id.0 && str_eq(self.marks[k].agent_slug.as_str(), agent) {
                assert(self@.marks[k as int].0 == agent@ && self@.marks[k as int].1 == id);
                return true;
            }
            k = k + 1;
        }
        false
    }

    /// Marks `id` processed by `agent` at `now`. Marking again changes
    /// nothing; an id that no stored item has is refused.
    pub fn mark_processed(&mut self, agent: &str, id: ItemId, now: i64) -> (r: Result<()>)
        requires
            old(self)@.wf(),
        ensures
            final(self)@.wf(),
            match old(self)@.marked(agent@, id, now) {
                Some(w) => r is Ok && final(self)@ == w,
                None => (r matches Err(Error::Storage(m)) && m@ == FOREIGN_KEY_FAILED@) && final(self)@ == old(self)@,
            },
    {
        let ghost v = self@;
        if self.id_index(id).is_none() {
            return Err(Error::Storage(to_string(FOREIGN_KEY_FAILED)));
        }
        if self.has_mark(agent, id) {
            return Ok(());
        }
        let m = ProcessedMark { agent_slug: to_string(agent), item_id: id, processed_at: now };
        self.marks.push(m);
        proof {
            let w = self@;
            assert(w.marks =~= v.marks.push((agent@, id, now)));
            assert(w.rows == v.rows);
            assert(w.sources == v.sources);
            assert forall|k: int, l: int| 0 <= k < l < w.marks.len() implies !(#[trigger] w.marks[k].0 == #[trigger] w.marks[l].0 && w.marks[k].1 == w.marks[l].1) by {
                if l == w.marks.len() - 1 {
                    assert(w.marks[k] == v.marks[k]);
                } else {
                    assert(w.marks[k] == v.marks[k] && w.marks[l] == v.marks[l]);
                }
            }
            assert forall|k: int| 0 <= k < w.marks.len() implies find_id(w.rows, #[trigger] w.marks[k].1) is Some by {
                if k < w.marks.len() - 1 {
                    assert(w.marks[k] == v.marks[k]);
                }
            }
        }
        Ok(())
    }

    /// At most `limit` items waiting for `agent` in `space`, oldest first.
    /// When fewer than `limit` come back, every item of the space that is
    /// neither deleted nor marked by the agent is among them.
    pub fn fetch_unprocessed(&self, agent: &str, space: &str, limit: u32) -> (r: Vec<Item>)
        ensures
            r@ == self@.fetched(agent@, space@, limit),
            r.len() <= limit,
            r.len() < limit ==> forall|j: int|
                0 <= j < self@.rows.len() && (#[trigger] self@.rows[j]).item.space.slug() == space@
                    && self@.rows[j].deleted_at is None && !is_marked(self@.marks, agent@, self@.rows[j].item.id)
                    ==> exists|k: int| 0 <= k < r.len() && #[trigger] r@[k] == self@.rows[j].item,
    {
        let ghost rows = self@.rows;
        let ghost marks = self@.marks;
        let mut out: Vec<Item> = Vec::new();
        let mut i: usize = 0;
        assert(rows.take(0) =~= Seq::<StoredRow>::empty());
        while i < self.rows.len() && out.len() < limit as usize
            invariant
                rows == self@.rows,
                marks == self@.marks,
                i <= rows.len(),
                out.len() <= limit,
                out@ == waiting_items(rows.take(i as int), marks, agent@, space@),
            decreases rows.len() - i,
        {
            let row = &self.rows[i];
            assert(rows.take(i + 1).drop_last() =~= rows.take(i as int));
            assert(rows.take(i + 1).last() == rows[i as int]);
            if str_eq(row.item.space.as_str(), space) && row.deleted_at.is_none() && !self.has_mark(agent, row.item.id) {
                out.push(clone_item(&row.item));
            }
            i = i + 1;
        }
        proof {
            let p = self@.pending(agent@, space@);
            lemma_waiting_prefix(rows, marks, agent@, space@, i as int, rows.len() as int);
            assert(rows.take(rows.len() as int) =~= rows);
            if out.len() == limit && p.len() > limit {
                assert(p.take(limit as int) =~= out@);
            }
            if i == rows.len() {
                assert(out@ == p);
            } else {
                assert(p.take(out@.len() as int) == out@);
                if p.len() <= limit {
                    assert(p =~= out@);
                }
            }
            lemma_fetch_complete(self@, agent@, space@, limit);
            if out.len() < limit {
                assert forall|j: int|
                    0 <= j < rows.len() && (#[trigger] rows[j]).item.space.slug() == space@
                        && rows[j].deleted_at is None && !is_marked(marks, agent@, rows[j].item.id)
                        implies exists|k: int| 0 <= k < out.len() && #[trigger] out@[k] == rows[j].item by {
                    let k = choose|k: int| 0 <= k < p.len() && #[trigger] p[k] == rows[j].item;
                    assert(out@[k] == p[k]);
                }
            }
        }
        out
    }

    /// Registers `source`, or gives a known slug its new space.
    pub fn upsert_source(&mut self, source: Source)
        requires
            old(self)@.wf(),
        ensures
            final(self)@.wf(),
            final(self)@ == old(self)@.upserted(source),
    {
        let ghost v = self@;
        let ghost srcs = self.sources@;
        if let Some(i) = self.slug_index(source.slug.as_str()) {
            self.sources.set(i, source);
            proof {
                lemma_find_slug_props(srcs, source.slug@);
                let w = self@;
                assert(w.sources =~= srcs.update(i as int, source));
                assert(w.rows == v.rows && w.marks == v.marks);
                assert forall|a: int, b: int| 0 <= a < b < w.sources.len() implies lex_lt(#[trigger] w.sources[a].slug@, #[trigger] w.sources[b].slug@) by {
                    assert(w.sources[a].slug@ == srcs[a].slug@);
                    assert(w.sources[b].slug@ == srcs[b].slug@);
                }
            }
            return;
        }
        proof {
            assert(find_slug(srcs, source.slug@) is None);
            lemma_find_slug_props(srcs, source.slug@);
            lemma_count_before_splits(srcs, source.slug@);
        }
        let mut c: usize = 0;
        let mut i: usize = 0;
        assert(srcs.take(0) =~= Seq::<Source>::empty());
        while i < self.sources.len()
            invariant
                srcs == self.sources@,
                i <= srcs.len(),
                c == count_before(srcs.take(i as int), source.slug@),
                c <= i,
            decreases srcs.len() - i,
        {
            assert(srcs.take(i + 1).drop_last() =~= srcs.take(i as int));
            assert(srcs.take(i + 1).last() == srcs[i as int]);
            if lex_less(self.sources[i].slug.as_str(), source.slug.as_str()) {
                c = c + 1;
            }
            i = i + 1;
        }
        assert(srcs.take(srcs.len() as int) =~= srcs);
        self.sources.insert(c, source);
        proof {
            let w = self@;
            assert(w.sources =~= srcs.insert(c as int, source));
            assert(w.rows == v.rows && w.marks == v.marks);
            assert forall|a: int, b: int| 0 <= a < b < w.sources.len() implies lex_lt(#[trigger] w.sources[a].slug@, #[trigger] w.sources[b].slug@) by {
                if a < c && b < c {
                    assert(w.sources[a] == srcs[a] && w.sources[b] == srcs[b]);
                } else if a < c && b == c {
                    assert(w.sources[a] == srcs[a]);
                } else if a < c {
                    assert(w.sources[a] == srcs[a] && w.sources[b] == srcs[b - 1]);
                    assert(lex_lt(source.slug@, srcs[b - 1].slug@));
                    lemma_lex_transitive(srcs[a].slug@, source.slug@, srcs[b - 1].slug@);
                } else if a == c {
                    assert(w.sources[b] == srcs[b - 1]);
                } else {
                    assert(w.sources[a] == srcs[a - 1] && w.sources[b] == srcs[b - 1]);
                }
            }
        }
    }

    /// The registered sources, in slug order.
    pub fn list_sources(&self) -> (r: Vec<Source>)
        ensures
            r@ == self@.sources,
    {
        let mut out: Vec<Source> = Vec::new();
        let mut i: usize = 0;
        while i < self.sources.len()
            invariant
                i <= self.sources.len(),
                out@ == self@.sources.take(i as int),
            decreases self.sources.len() - i,
        {
            out.push(clone_source(&self.sources[i]));
            assert(out@ =~= self@.sources.take(i + 1));
            i = i + 1;
        }
        assert(out@ =~= self@.sources);
        out
    }

    /// The item with `id`, unless it is missing or deleted.
    pub fn get_item(&self, id: ItemId) -> (r: Option<Item>)
        ensures
            r == self@.get(id),
    {
        match self.id_index(id) {
            Some(i) => {
                if self.rows[i].deleted_at.is_none() {
                    Some(clone_item(&self.rows[i].item))
                } else {
                    None
                }
            },
            None => None,
        }
    }

    /// Soft-deletes `id` at `now`; a missing or already deleted item is left
    /// as it is.
    pub fn delete_item(&mut self, id: ItemId, now: i64)
        requires
            old(self)@.wf(),
        ensures
            final(self)@.wf(),
            final(self)@ == old(self)@.deleted(id, now),
    {
        let ghost v = self@;
        if let Some(i) = self.id_index(id) {
            if self.rows[i].deleted_at.is_none() {
                let mut row = self.rows.remove(i);
                row.deleted_at = Some(now);
                self.rows.insert(i, row);
                proof {
                    let w = self@;
                    let nr = StoredRow { item: v.rows[i as int].item, deleted_at: Some(now) };
                    assert(w.rows =~= v.rows.update(i as int, nr));
                    assert(w.marks =~= v.marks);
                    assert(w.sources == v.sources);
                    assert forall|k: int| 0 <= k < w.marks.len() implies find_id(w.rows, #[trigger] w.marks[k].1) is Some by {
                        lemma_find_id_update(v.rows, i as int, nr, w.marks[k].1);
                    }
                    assert forall|a: int, b: int| 0 <= a < b < w.rows.len() implies row_key(#[trigger] w.rows[a]) != row_key(#[trigger] w.rows[b]) by {
                        assert(row_key(w.rows[a]) == row_key(v.rows[a]));
                        assert(row_key(w.rows[b]) == row_key(v.rows[b]));
                    }
                    assert forall|a: int, b: int| 0 <= a < b < w.rows.len() implies #[trigger] w.rows[a].item.id.0 < #[trigger] w.rows[b].item.id.0 by {
                        assert(w.rows[a].item.id == v.rows[a].item.id);
                        assert(w.rows[b].item.id == v.rows[b].item.id);
                    }
                    assert forall|a: int| 0 <= a < w.rows.len() implies 1 <= #[trigger] w.rows[a].item.id.0 < w.next_id by {
                        assert(w.rows[a].item.id == v.rows[a].item.id);
                    }
                }
            }
        }
    }
}


/// Every item waiting in `rows` came from a waiting row, and their ids rise
/// strictly when the rows' ids do.
proof fn lemma_waiting_from_rows(
    rows: Seq<StoredRow>,
    marks: Seq<(Seq<char>, ItemId, i64)>,
    agent: Seq<char>,
    space: Seq<char>,
)
    requires
        forall|a: int, b: int| 0 <= a < b < rows.len() ==> #[trigger] rows[a].item.id.0 < #[trigger] rows[b].item.id.0,
    ensures
        forall|k: int| #![trigger waiting_items(rows, marks, agent, space)[k]] 0 <= k < waiting_items(rows, marks, agent, space).len() ==> exists|j: int|
            0 <= j < rows.len() && (#[trigger] rows[j]).item == waiting_items(rows, marks, agent, space)[k]
                && waiting(rows[j], marks, agent, space),
        forall|a: int, b: int| 0 <= a < b < waiting_items(rows, marks, agent, space).len()
            ==> (#[trigger] waiting_items(rows, marks, agent, space)[a]).id.0
                < (#[trigger] waiting_items(rows, marks, agent, space)[b]).id.0,
    decreases rows.len(),
{
    if rows.len() > 0 {
        let init = rows.drop_last();
        assert forall|a: int, b: int| 0 <= a < b < init.len() implies #[trigger] init[a].item.id.0 < #[trigger] init[b].item.id.0 by {
            assert(init[a] == rows[a] && init[b] == rows[b]);
        }
        lemma_waiting_from_rows(init, marks, agent, space);
        let wi = waiting_items(init, marks, agent, space);
        let w = waiting_items(rows, marks, agent, space);
        let last = rows.len() - 1;
        assert forall|k: int| #![trigger w[k]] 0 <= k < w.len() implies exists|j: int|
            0 <= j < rows.len() && (#[trigger] rows[j]).item == w[k] && waiting(rows[j], marks, agent, space) by {
            if k < wi.len() {
                let j = choose|j: int| 0 <= j < init.len() && (#[trigger] init[j]).item == wi[k] && waiting(init[j], marks, agent, space);
                assert(rows[j] == init[j]);
            } else {
                assert(rows[last].item == w[k]);
            }
        }
        assert forall|a: int, b: int| 0 <= a < b < w.len() implies (#[trigger] w[a]).id.0 < (#[trigger] w[b]).id.0 by {
            if b >= wi.len() {
                let j = choose|j: int| 0 <= j < init.len() && (#[trigger] init[j]).item == wi[a] && waiting(init[j], marks, agent, space);
                assert(rows[j] == init[j]);
                assert(rows[j].item.id.0 < rows[last].item.id.0);
            }
        }
    }
}

/// Waiting items for `agent` depend only on that agent's marks.
proof fn lemma_waiting_same_marks(
    rows: Seq<StoredRow>,
    m1: Seq<(Seq<char>, ItemId, i64)>,
    m2: Seq<(Seq<char>, ItemId, i64)>,
    agent: Seq<char>,
    space: Seq<char>,
)
    requires
        forall|id: ItemId| is_marked(m1, agent, id) == is_marked(m2, agent, id),
    ensures
        waiting_items(rows, m1, agent, space) == waiting_items(rows, m2, agent, space),
    decreases rows.len(),
{
    if rows.len() > 0 {
        lemma_waiting_same_marks(rows.drop_last(), m1, m2, agent, space);
        assert(is_marked(m1, agent, rows.last().item.id) == is_marked(m2, agent, rows.last().item.id));
    }
}

/// What a read gives back of a write: a new message is stored under the
/// next id, and reading that id gives back the item as it was written.
pub proof fn lemma_insert_then_get(v: StoreView, item: NewItem, now: i64)
    requires
        v.wf(),
        find_key(v.rows, (item.telegram.chat_id, item.telegram.message_id)) is None,
        v.next_id < i64::MAX,
    ensures
        v.inserted(item, now).1 == Some(ItemId(v.next_id)),
        v.inserted(item, now).0.get(ItemId(v.next_id)) == Some(row_of(item, v.next_id, now).item),
{
    let w = v.inserted(item, now).0;
    assert(w.rows.last() == row_of(item, v.next_id, now));
}

/// Inserting the same Telegram message again answers the first id and
/// changes nothing, whatever text the repeat carries.
pub proof fn lemma_insert_dedup(v: StoreView, a: NewItem, b: NewItem, t1: i64, t2: i64)
    requires
        v.wf(),
        a.telegram.chat_id == b.telegram.chat_id,
        a.telegram.message_id == b.telegram.message_id,
        v.inserted(a, t1).1 is Some,
    ensures
        v.inserted(a, t1).0.inserted(b, t2) == (v.inserted(a, t1).0, v.inserted(a, t1).1),
{
    let key = (a.telegram.chat_id, a.telegram.message_id);
    let w = v.inserted(a, t1).0;
    if find_key(v.rows, key) is None {
        assert(row_key(w.rows.last()) == key);
        assert(find_key(w.rows, key) == Some(w.rows.len() - 1));
    }
}

/// A deleted item is gone from reads and from every agent's listing.
pub proof fn lemma_delete_hides(v: StoreView, id: ItemId, now: i64, agent: Seq<char>, space: Seq<char>)
    requires
        v.wf(),
    ensures
        v.deleted(id, now).get(id) is None,
        forall|k: int| 0 <= k < v.deleted(id, now).pending(agent, space).len()
            ==> (#[trigger] v.deleted(id, now).pending(agent, space)[k]).id != id,
{
    let w = v.deleted(id, now);
    lemma_find_id_props(v.rows, id);
    if let Some(i) = find_id(v.rows, id) {
        if v.rows[i].deleted_at is None {
            lemma_find_id_update(v.rows, i, StoredRow { item: v.rows[i].item, deleted_at: Some(now) }, id);
        }
    }
    assert forall|a: int, b: int| 0 <= a < b < w.rows.len() implies #[trigger] w.rows[a].item.id.0 < #[trigger] w.rows[b].item.id.0 by {
        assert(w.rows[a].item == v.rows[a].item && w.rows[b].item == v.rows[b].item);
    }
    lemma_waiting_from_rows(w.rows, w.marks, agent, space);
    let p = w.pending(agent, space);
    assert forall|k: int| 0 <= k < p.len() implies (#[trigger] p[k]).id != id by {
        let j = choose|j: int| 0 <= j < w.rows.len() && (#[trigger] w.rows[j]).item == p[k] && waiting(w.rows[j], w.marks, agent, space);
        if p[k].id == id {
            lemma_find_id_unique(w.rows, id, j);
            lemma_find_id_props(w.rows, id);
        }
    }
}

/// Deleting twice is deleting once.
pub proof fn lemma_delete_idempotent(v: StoreView, id: ItemId, n: i64, m: i64)
    ensures
        v.deleted(id, n).deleted(id, m) == v.deleted(id, n),
{
    lemma_find_id_props(v.rows, id);
    if let Some(i) = find_id(v.rows, id) {
        if v.rows[i].deleted_at is None {
            lemma_find_id_update(v.rows, i, StoredRow { item: v.rows[i].item, deleted_at: Some(n) }, id);
        }
    }
}

/// A processed mark hides the item from that agent's listing only; every
/// other agent's listing is unchanged.
pub proof fn lemma_mark_hides_for_agent_only(v: StoreView, agent: Seq<char>, id: ItemId, now: i64, other: Seq<char>, space: Seq<char>)
    requires
        v.wf(),
        v.marked(agent, id, now) is Some,
        other != agent,
    ensures
        forall|k: int| 0 <= k < v.marked(agent, id, now)->0.pending(agent, space).len()
            ==> (#[trigger] v.marked(agent, id, now)->0.pending(agent, space)[k]).id != id,
        v.marked(agent, id, now)->0.pending(other, space) == v.pending(other, space),
{
    let w = v.marked(agent, id, now)->0;
    assert(w.rows == v.rows);
    if !is_marked(v.marks, agent, id) {
        assert(w.marks == v.marks.push((agent, id, now)));
        assert(w.marks[w.marks.len() - 1].0 == agent && w.marks[w.marks.len() - 1].1 == id);
        assert(is_marked(w.marks, agent, id));
        assert forall|x: ItemId| is_marked(w.marks, other, x) == is_marked(v.marks, other, x) by {
            if is_marked(w.marks, other, x) {
                let k = choose|k: int| 0 <= k < w.marks.len() && #[trigger] w.marks[k].0 == other && w.marks[k].1 == x;
                assert(k < v.marks.len());
                assert(w.marks[k] == v.marks[k]);
            }
            if is_marked(v.marks, other, x) {
                let k = choose|k: int| 0 <= k < v.marks.len() && #[trigger] v.marks[k].0 == other && v.marks[k].1 == x;
                assert(w.marks[k] == v.marks[k]);
            }
        }
    }
    lemma_waiting_same_marks(v.rows, w.marks, v.marks, other, space);
    lemma_waiting_from_rows(w.rows, w.marks, agent, space);
}

/// Marking twice is marking once.
pub proof fn lemma_mark_idempotent(v: StoreView, agent: Seq<char>, id: ItemId, n: i64, m: i64)
    requires
        v.marked(agent, id, n) is Some,
    ensures
        v.marked(agent, id, n)->0.marked(agent, id, m) == v.marked(agent, id, n),
{
    let w = v.marked(agent, id, n)->0;
    assert(w.rows == v.rows);
    if !is_marked(v.marks, agent, id) {
        assert(w.marks == v.marks.push((agent, id, n)));
        assert(w.marks[w.marks.len() - 1].0 == agent && w.marks[w.marks.len() - 1].1 == id);
        assert(is_marked(w.marks, agent, id));
    }
}

/// A listing is oldest first, no longer than asked, and holds only items of
/// the space that are neither deleted nor marked by the agent.
pub proof fn lemma_fetch_shape(v: StoreView, agent: Seq<char>, space: Seq<char>, limit: u32)
    requires
        v.wf(),
    ensures
        v.fetched(agent, space, limit).len() <= limit,
        forall|a: int, b: int| 0 <= a < b < v.fetched(agent, space, limit).len()
            ==> (#[trigger] v.fetched(agent, space, limit)[a]).id.0 < (#[trigger] v.fetched(agent, space, limit)[b]).id.0,
        forall|k: int| #![trigger v.fetched(agent, space, limit)[k]] 0 <= k < v.fetched(agent, space, limit).len() ==> exists|j: int|
            0 <= j < v.rows.len() && (#[trigger] v.rows[j]).item == v.fetched(agent, space, limit)[k]
                && waiting(v.rows[j], v.marks, agent, space),
{
    lemma_waiting_from_rows(v.rows, v.marks, agent, space);
    let p = v.pending(agent, space);
    let f = v.fetched(agent, space, limit);
    assert forall|k: int| 0 <= k < f.len() implies f[k] == p[k] by {}
}

proof fn lemma_waiting_complete(
    rows: Seq<StoredRow>,
    marks: Seq<(Seq<char>, ItemId, i64)>,
    agent: Seq<char>,
    space: Seq<char>,
    j: int,
)
    requires
        0 <= j < rows.len(),
        rows[j].item.space.slug() == space,
        rows[j].deleted_at is None,
        !is_marked(marks, agent, rows[j].item.id),
    ensures
        exists|k: int|
            0 <= k < waiting_items(rows, marks, agent, space).len()
                && #[trigger] waiting_items(rows, marks, agent, space)[k] == rows[j].item,
    decreases rows.len(),
{
    let init = rows.drop_last();
    let w = waiting_items(rows, marks, agent, space);
    let wi = waiting_items(init, marks, agent, space);
    if j == rows.len() - 1 {
        assert(w[wi.len() as int] == rows[j].item);
    } else {
        assert(init[j] == rows[j]);
        lemma_waiting_complete(init, marks, agent, space, j);
        let k = choose|k: int| 0 <= k < wi.len() && #[trigger] wi[k] == init[j].item;
        assert(w[k] == wi[k]);
    }
}

/// A listing leaves nothing out: every stored item of the space that is not
/// deleted and not marked by the agent is waiting for it, whatever its kind,
/// and a listing is the first `limit` of the waiting items (all of them when
/// there are no more than `limit`).
pub proof fn lemma_fetch_complete(v: StoreView, agent: Seq<char>, space: Seq<char>, limit: u32)
    ensures
        forall|j: int|
            0 <= j < v.rows.len() && (#[trigger] v.rows[j]).item.space.slug() == space
                && v.rows[j].deleted_at is None && !is_marked(v.marks, agent, v.rows[j].item.id)
                ==> exists|k: int|
                0 <= k < v.pending(agent, space).len() && #[trigger] v.pending(agent, space)[k]
                    == v.rows[j].item,
        v.fetched(agent, space, limit).len() == if v.pending(agent, space).len() <= limit {
            v.pending(agent, space).len()
        } else {
            limit as nat
        },
        forall|k: int|
            0 <= k < v.fetched(agent, space, limit).len() ==> #[trigger] v.fetched(agent, space, limit)[k]
                == v.pending(agent, space)[k],
{
    assert forall|j: int|
        0 <= j < v.rows.len() && (#[trigger] v.rows[j]).item.space.slug() == space
            && v.rows[j].deleted_at is None && !is_marked(v.marks, agent, v.rows[j].item.id)
            implies exists|k: int|
            0 <= k < v.pending(agent, space).len() && #[trigger] v.pending(agent, space)[k]
                == v.rows[j].item by {
        lemma_waiting_complete(v.rows, v.marks, agent, space, j);
        let w = waiting_items(v.rows, v.marks, agent, space);
        let k = choose|k: int| 0 <= k < w.len() && #[trigger] w[k] == v.rows[j].item;
        assert(v.pending(agent, space)[k] == v.rows[j].item);
    }
}

/// A message deleted and then delivered again stays deleted: the repeat
/// answers the old id and reading it still gives nothing.
pub proof fn lemma_tombstone_survives_redelivery(v: StoreView, id: ItemId, now: i64, b: NewItem, t: i64)
    requires
        v.wf(),
        v.get(id) matches Some(item) && item.telegram.chat_id == b.telegram.chat_id
            && item.telegram.message_id == b.telegram.message_id,
    ensures
        v.deleted(id, now).inserted(b, t) == (v.deleted(id, now), Some(id)),
        v.deleted(id, now).inserted(b, t).0.get(id) is None,
{
    let w = v.deleted(id, now);
    let key = (b.telegram.chat_id, b.telegram.message_id);
    lemma_find_id_props(v.rows, id);
    let i = find_id(v.rows, id)->0;
    let nr = StoredRow { item: v.rows[i].item, deleted_at: Some(now) };
    lemma_find_id_update(v.rows, i, nr, id);
    assert(w.rows[i] == nr);
    lemma_find_key_none(w.rows, key);
    let j = find_key(w.rows, key)->0;
    if j != i {
        assert(row_key(w.rows[j]) == row_key(v.rows[j]));
        if j < i {
            assert(row_key(v.rows[j]) != row_key(v.rows[i]));
        } else {
            assert(row_key(v.rows[i]) != row_key(v.rows[j]));
        }
    }
    lemma_delete_hides(v, id, now, Seq::empty(), Seq::empty());
}

/// Registering a source leaves exactly one source with its slug, and that
/// source is the one registered.
pub proof fn lemma_upsert_registers(v: StoreView, source: Source)
    requires
        v.wf(),
    ensures
        exists|i: int| 0 <= i < v.upserted(source).sources.len() && v.upserted(source).sources[i] == source,
        forall|i: int| 0 <= i < v.upserted(source).sources.len() && (#[trigger] v.upserted(source).sources[i]).slug@ == source.slug@
            ==> v.upserted(source).sources[i] == source,
{
    let w = v.upserted(source);
    lemma_find_slug_props(v.sources, source.slug@);
    match find_slug(v.sources, source.slug@) {
        Some(i) => {
            assert(w.sources[i] == source);
            assert forall|j: int| 0 <= j < w.sources.len() && (#[trigger] w.sources[j]).slug@ == source.slug@ implies w.sources[j] == source by {
                if j != i {
                    assert(w.sources[j] == v.sources[j]);
                    if j < i {
                        assert(lex_lt(v.sources[j].slug@, v.sources[i].slug@));
                    } else {
                        assert(lex_lt(v.sources[i].slug@, v.sources[j].slug@));
                    }
                    lemma_lex_irreflexive(source.slug@);
                }
            }
        },
        None => {
            lemma_count_before_splits(v.sources, source.slug@);
            let c = count_before(v.sources, source.slug@) as int;
            assert(w.sources[c] == source);
            assert forall|j: int| 0 <= j < w.sources.len() && (#[trigger] w.sources[j]).slug@ == source.slug@ implies w.sources[j] == source by {
                if j < c {
                    assert(w.sources[j] == v.sources[j]);
                } else if j > c {
                    assert(w.sources[j] == v.sources[j - 1]);
                }
            }
        },
    }
}

} // verus!
