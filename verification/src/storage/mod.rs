//! The provider-neutral side of object storage: write options, listing
//! requests and pages, and the ordering of a listing page.
use crate::text::{
    chars_less, chars_of, is_prefix, lemma_lex_less_asymmetric, lemma_lex_less_total,
    lemma_lex_less_transitive, lex_less, starts_with_str,
};
use crate::time::UtcTime;
use vstd::multiset::Multiset;
use vstd::prelude::*;

pub mod b2;
pub mod localfs;

verus! {

broadcast use vstd::string::group_string_axioms;

/// How many objects a listing returns when the request names no limit.
pub const DEFAULT_LIST_LIMIT: usize = 100;

/// Options of one write.
#[derive(Clone, Debug, PartialEq, Eq)]
pub struct PutOptions {
    /// Fail with `ObjectAlreadyExists` rather than replace an existing object.
    pub create_only: bool,
    pub content_type: String,
}

impl Default for PutOptions {
    fn default() -> (r: PutOptions)
        ensures
            !r.create_only,
            r.content_type@.len() == 0,
    {
        PutOptions { create_only: false, content_type: String::new() }
    }
}

/// What a store guarantees.
#[derive(Clone, Copy, Debug, PartialEq, Eq, Structural)]
pub struct StoreCapabilities {
    /// A create-only write is checked and made in one atomic step.
    pub create_if_absent_atomic: bool,
}

impl Default for StoreCapabilities {
    fn default() -> (r: StoreCapabilities)
        ensures
            r.create_if_absent_atomic,
    {
        StoreCapabilities { create_if_absent_atomic: true }
    }
}

/// What a store reports of one object.
#[derive(Clone, Debug, PartialEq, Eq)]
pub struct ObjectInfo {
    pub key: String,
    pub size: u64,
    pub content_type: String,
    pub modified_at: UtcTime,
}

/// One object of a listing.
#[derive(Clone, Debug, PartialEq, Eq)]
pub struct ListedObject {
    pub key: String,
    pub size: u64,
    pub modified_at: UtcTime,
}

/// A listing request: keys under `prefix`, after `start_after` when that is not
/// empty, at most `limit` of them (0 asks for the default).
#[derive(Clone, Debug, Default, PartialEq, Eq)]
pub struct ListInput {
    pub prefix: String,
    pub start_after: String,
    pub limit: usize,
}

/// One page of a listing, in ascending key order.
#[derive(Clone, Debug, Default, PartialEq, Eq)]
pub struct ListPage {
    pub objects: Vec<ListedObject>,
    /// More keys match beyond this page.
    pub has_more: bool,
    /// The last key of this page; empty when the page is empty.
    pub next_after_key: String,
}

/// The limit a listing applies: the requested one, or the default for 0.
pub open spec fn effective_limit_spec(limit: usize) -> usize {
    if limit == 0 {
        DEFAULT_LIST_LIMIT
    } else {
        limit
    }
}

pub fn effective_limit(limit: usize) -> (r: usize)
    ensures
        r == effective_limit_spec(limit),
        limit == 0 ==> r == DEFAULT_LIST_LIMIT,
        limit > 0 ==> r == limit,
{
    if limit == 0 {
        DEFAULT_LIST_LIMIT
    } else {
        limit
    }
}

/// A key belongs to a listing when it starts with the prefix and, if a start
/// key is given, sorts after it.
pub open spec fn listable(key: Seq<char>, prefix: Seq<char>, start_after: Seq<char>) -> bool {
    is_prefix(prefix, key) && (start_after.len() == 0 || lex_less(start_after, key))
}

/// The objects of `s` that belong to the listing.
pub open spec fn listable_objects(
    s: Seq<ListedObject>,
    prefix: Seq<char>,
    start_after: Seq<char>,
) -> Multiset<ListedObject>
    decreases s.len(),
{
    if s.len() == 0 {
        Multiset::empty()
    } else {
        let rest = listable_objects(s.drop_last(), prefix, start_after);
        if listable(s.last().key@, prefix, start_after) {
            rest.insert(s.last())
        } else {
            rest
        }
    }
}

/// Keys never decrease along `s`.
pub open spec fn key_sorted(s: Seq<ListedObject>) -> bool {
    forall|i: int, j: int| 0 <= i < j < s.len() ==> !lex_less(s[j].key@, s[i].key@)
}

/// `page` is the first `limit` (or default) of the listable objects of
/// `candidates` in ascending key order.
pub open spec fn is_page_of(
    page: ListPage,
    candidates: Seq<ListedObject>,
    prefix: Seq<char>,
    start_after: Seq<char>,
    limit: usize,
) -> bool {
    let all_matching = listable_objects(candidates, prefix, start_after);
    let cap = effective_limit_spec(limit) as int;
    &&& exists|all: Seq<ListedObject>|
        #![trigger all.to_multiset()]
        key_sorted(all) && all.to_multiset() == all_matching && page.objects@ == all.take(
            if all.len() < cap {
                all.len() as int
            } else {
                cap
            },
        )
    &&& page.has_more == (all_matching.len() > cap)
    &&& page.next_after_key@ == if page.objects@.len() == 0 {
        Seq::empty()
    } else {
        page.objects@.last().key@
    }
}

/// Inserts `item` into the key-sorted `sorted`, after the entries whose keys
/// do not sort after its key.
fn insert_sorted(sorted: &mut Vec<ListedObject>, item: ListedObject)
    requires
        key_sorted(old(sorted)@),
    ensures
        key_sorted(final(sorted)@),
        final(sorted)@.to_multiset() == old(sorted)@.to_multiset().insert(item),
{
    let item_key = chars_of(item.key.as_str());
    let mut p: usize = 0;
    while p < sorted.len()
        invariant
            p <= sorted.len(),
            item_key@ == item.key@,
            forall|k: int| 0 <= k < p ==> !lex_less(item.key@, #[trigger] sorted@[k].key@),
        ensures
            p <= sorted.len(),
            forall|k: int| 0 <= k < p ==> !lex_less(item.key@, #[trigger] sorted@[k].key@),
            p < sorted.len() ==> lex_less(item.key@, sorted@[p as int].key@),
        decreases sorted.len() - p,
    {
        let other = chars_of(sorted[p].key.as_str());
        if chars_less(&item_key, &other) {
            break ;
        }
        p = p + 1;
    }
    let ghost before = sorted@;
    sorted.insert(p, item);
    proof {
        broadcast use vstd::seq_lib::to_multiset_insert;

        let after = sorted@;
        assert forall|i: int, j: int| 0 <= i < j < after.len() implies !lex_less(
            after[j].key@,
            after[i].key@,
        ) by {
            if j < p {
                assert(after[i] == before[i] && after[j] == before[j]);
            } else if j == p {
                assert(after[i] == before[i]);
            } else if i == p {
                let k = j - 1;
                assert(after[j] == before[k]);
                if lex_less(before[k].key@, item.key@) {
                    if k == p {
                        lemma_lex_less_asymmetric(item.key@, before[p as int].key@);
                    } else {
                        lemma_lex_less_transitive(
                            before[k].key@,
                            item.key@,
                            before[p as int].key@,
                        );
                    }
                }
            } else if i < p {
                assert(after[i] == before[i] && after[j] == before[j - 1]);
            } else {
                assert(after[i] == before[i - 1] && after[j] == before[j - 1]);
            }
        }
    }
}


/// The page of a listing: the candidates under `prefix` and after
/// `start_after` (when that is not empty), in ascending key order, cut to the
/// effective limit.
pub fn select_page(
    candidates: Vec<ListedObject>,
    prefix: &str,
    start_after: &str,
    limit: usize,
) -> (page: ListPage)
    ensures
        is_page_of(page, candidates@, prefix@, start_after@, limit),
{
    broadcast use vstd::seq_lib::group_to_multiset_ensures, vstd::multiset::group_multiset_axioms;

    let ghost given = candidates@;
    let mut rest = candidates;
    let mut sorted: Vec<ListedObject> = Vec::new();
    let after_chars = chars_of(start_after);
    proof {
        assert(sorted@ =~= Seq::<ListedObject>::empty());
        assert(sorted@.to_multiset() =~= Multiset::<ListedObject>::empty());
        assert(sorted@.to_multiset().add(listable_objects(rest@, prefix@, start_after@))
            =~= listable_objects(given, prefix@, start_after@));
    }
    while rest.len() > 0
        invariant
            key_sorted(sorted@),
            after_chars@ == start_after@,
            sorted@.to_multiset().add(listable_objects(rest@, prefix@, start_after@))
                == listable_objects(given, prefix@, start_after@),
        decreases rest.len(),
    {
        let ghost before_rest = rest@;
        let ghost before_sorted = sorted@;
        match rest.pop() {
            Some(item) => {
                let key_chars = chars_of(item.key.as_str());
                let under_prefix = starts_with_str(&key_chars, prefix);
                let after_start = after_chars.len() == 0 || chars_less(&after_chars, &key_chars);
                proof {
                    assert(before_rest.drop_last() == rest@);
                    assert(before_rest.last() == item);
                }
                if under_prefix && after_start {
                    insert_sorted(&mut sorted, item);
                    proof {
                        assert(sorted@.to_multiset().add(listable_objects(rest@, prefix@, start_after@))
                            =~= before_sorted.to_multiset().add(
                            listable_objects(before_rest, prefix@, start_after@),
                        ));
                    }
                }
            },
            None => {},
        }
    }
    proof {
        assert(listable_objects(rest@, prefix@, start_after@) =~= Multiset::<
            ListedObject,
        >::empty());
        assert(sorted@.to_multiset() =~= listable_objects(given, prefix@, start_after@));
    }
    let cap = effective_limit(limit);
    let ghost all = sorted@;
    let has_more = sorted.len() > cap;
    if has_more {
        sorted.truncate(cap);
    }
    proof {
        assert(sorted@ =~= all.take(
            if all.len() < cap {
                all.len() as int
            } else {
                cap as int
            },
        ));
    }
    let next_after_key = if sorted.len() == 0 {
        String::new()
    } else {
        sorted[sorted.len() - 1].key.clone()
    };
    ListPage { objects: sorted, has_more, next_after_key }
}

// ---------------------------------------------------------------------
// Paging through a listing.
// ---------------------------------------------------------------------

/// No two objects of `s` share a key, as in a store.
pub open spec fn distinct_keys(s: Seq<ListedObject>) -> bool {
    forall|i: int, j: int|
        0 <= i < s.len() && 0 <= j < s.len() && i != j ==> #[trigger] s[i].key@ != #[trigger] s[j].key@
}

/// An object is listed as often as it is a candidate, when its key belongs
/// to the listing, and not at all otherwise.
proof fn lemma_listable_count(
    s: Seq<ListedObject>,
    prefix: Seq<char>,
    start_after: Seq<char>,
    o: ListedObject,
)
    ensures
        listable_objects(s, prefix, start_after).count(o) == if listable(o.key@, prefix, start_after) {
            s.to_multiset().count(o)
        } else {
            0
        },
    decreases s.len(),
{
    broadcast use vstd::seq_lib::group_to_multiset_ensures, vstd::multiset::group_multiset_axioms;

    if s.len() == 0 {
        assert(s.to_multiset() =~= Multiset::<ListedObject>::empty());
    } else {
        let t = s.drop_last();
        lemma_listable_count(t, prefix, start_after, o);
        assert(t.push(s.last()) =~= s);
    }
}

/// With distinct keys, no object occurs twice.
proof fn lemma_distinct_once(s: Seq<ListedObject>, o: ListedObject)
    requires
        distinct_keys(s),
    ensures
        s.to_multiset().count(o) <= 1,
    decreases s.len(),
{
    broadcast use vstd::seq_lib::group_to_multiset_ensures, vstd::multiset::group_multiset_axioms;

    if s.len() == 0 {
        assert(s.to_multiset() =~= Multiset::<ListedObject>::empty());
    } else {
        let t = s.drop_last();
        assert(distinct_keys(t)) by {
            assert forall|i: int, j: int|
                0 <= i < t.len() && 0 <= j < t.len() && i != j implies #[trigger] t[i].key@
                != #[trigger] t[j].key@ by {
                assert(t[i] == s[i] && t[j] == s[j]);
            }
        }
        lemma_distinct_once(t, o);
        assert(t.push(s.last()) =~= s);
        if s.last() == o && t.to_multiset().count(o) > 0 {
            assert(t.contains(o));
            let i = choose|i: int| 0 <= i < t.len() && t[i] == o;
            assert(s[i] == s[s.len() - 1]);
            assert(s[i].key@ == s[s.len() - 1].key@);
        }
    }
}

/// An object at two places of `s` occurs twice.
proof fn lemma_twice(s: Seq<ListedObject>, i: int, j: int)
    requires
        0 <= i < j < s.len(),
        s[i] == s[j],
    ensures
        s.to_multiset().count(s[i]) >= 2,
    decreases s.len(),
{
    broadcast use vstd::seq_lib::group_to_multiset_ensures, vstd::multiset::group_multiset_axioms;

    let t = s.drop_last();
    assert(t.push(s.last()) =~= s);
    if j == s.len() - 1 {
        assert(t[i] == s[i]);
        assert(t.contains(s[i]));
    } else {
        assert(t[i] == s[i] && t[j] == s[j]);
        lemma_twice(t, i, j);
    }
}

/// In a key-sorted run of distinct candidates, no object after the one at
/// `last` has a key that sorts no later than its key.
proof fn lemma_sorted_position(
    all: Seq<ListedObject>,
    candidates: Seq<ListedObject>,
    prefix: Seq<char>,
    start_after: Seq<char>,
    last: int,
    i: int,
)
    requires
        distinct_keys(candidates),
        key_sorted(all),
        all.to_multiset() == listable_objects(candidates, prefix, start_after),
        0 <= last < i < all.len(),
    ensures
        lex_less(all[last].key@, all[i].key@),
{
    broadcast use vstd::seq_lib::group_to_multiset_ensures, vstd::multiset::group_multiset_axioms;

    lemma_lex_less_total(all[last].key@, all[i].key@);
    if all[last].key@ == all[i].key@ {
        let x = all[last];
        let y = all[i];
        assert(all.contains(x) && all.contains(y));
        lemma_listable_count(candidates, prefix, start_after, x);
        lemma_listable_count(candidates, prefix, start_after, y);
        assert(candidates.contains(x) && candidates.contains(y));
        let a = choose|a: int| 0 <= a < candidates.len() && candidates[a] == x;
        let b = choose|b: int| 0 <= b < candidates.len() && candidates[b] == y;
        assert(candidates[a].key@ == candidates[b].key@);
        assert(a == b);
        lemma_twice(all, last, i);
        lemma_distinct_once(candidates, x);
    }
}

/// Listing the page after the last key of a page continues it without
/// repeats or gaps, when keys are distinct (as in a store) and that last key
/// is not empty: every key of the next page sorts after every key of the
/// first; every listable object whose key sorts no later than the first
/// page's last key is on the first page; and every other listable object
/// whose key sorts no later than the next page's last key is on the next page.
pub proof fn lemma_next_page_continues(
    candidates: Seq<ListedObject>,
    prefix: Seq<char>,
    start_after: Seq<char>,
    limit: usize,
    first: ListPage,
    next_limit: usize,
    next: ListPage,
)
    requires
        distinct_keys(candidates),
        is_page_of(first, candidates, prefix, start_after, limit),
        first.next_after_key@.len() > 0,
        is_page_of(next, candidates, prefix, first.next_after_key@, next_limit),
    ensures
        forall|i: int, j: int|
            0 <= i < first.objects@.len() && 0 <= j < next.objects@.len() ==> lex_less(
                #[trigger] first.objects@[i].key@,
                #[trigger] next.objects@[j].key@,
            ),
        forall|o: ListedObject|
            #[trigger] listable_objects(candidates, prefix, start_after).count(o) > 0 && !lex_less(
                first.next_after_key@,
                o.key@,
            ) ==> first.objects@.contains(o),
        forall|o: ListedObject|
            #[trigger] listable_objects(candidates, prefix, start_after).count(o) > 0 && lex_less(
                first.next_after_key@,
                o.key@,
            ) && next.objects@.len() > 0 && !lex_less(next.next_after_key@, o.key@)
                ==> next.objects@.contains(o),
        next.objects@.len() == 0 ==> forall|o: ListedObject|
            #[trigger] listable_objects(candidates, prefix, start_after).count(o) > 0 ==> !lex_less(
                first.next_after_key@,
                o.key@,
            ),
{
    broadcast use vstd::seq_lib::group_to_multiset_ensures, vstd::multiset::group_multiset_axioms;

    let k1 = first.next_after_key@;
    let m1 = listable_objects(candidates, prefix, start_after);
    let m2 = listable_objects(candidates, prefix, k1);
    let cap1 = effective_limit_spec(limit) as int;
    let cap2 = effective_limit_spec(next_limit) as int;
    let all1 = choose|all: Seq<ListedObject>|
        #![trigger all.to_multiset()]
        key_sorted(all) && all.to_multiset() == m1 && first.objects@ == all.take(
            if all.len() < cap1 {
                all.len() as int
            } else {
                cap1
            },
        );
    let all2 = choose|all: Seq<ListedObject>|
        #![trigger all.to_multiset()]
        key_sorted(all) && all.to_multiset() == m2 && next.objects@ == all.take(
            if all.len() < cap2 {
                all.len() as int
            } else {
                cap2
            },
        );
    let n1 = first.objects@.len() as int;
    let n2 = next.objects@.len() as int;
    assert(n1 > 0);
    assert(first.objects@[n1 - 1].key@ == k1);
    // Every key of the first page sorts no later than its last key.
    assert forall|i: int| 0 <= i < n1 implies !lex_less(k1, #[trigger] first.objects@[i].key@) by {
        assert(first.objects@[i] == all1[i]);
        assert(first.objects@[n1 - 1] == all1[n1 - 1]);
    }
    // Every key of the next page sorts after `k1`.
    assert forall|j: int| 0 <= j < n2 implies lex_less(k1, #[trigger] next.objects@[j].key@) by {
        let o = next.objects@[j];
        assert(o == all2[j]);
        assert(all2.contains(o));
        lemma_listable_count(candidates, prefix, k1, o);
    }
    assert forall|i: int, j: int|
        0 <= i < n1 && 0 <= j < n2 implies lex_less(
        #[trigger] first.objects@[i].key@,
        #[trigger] next.objects@[j].key@,
    ) by {
        let f = first.objects@[i].key@;
        lemma_lex_less_total(f, k1);
        if lex_less(f, k1) {
            lemma_lex_less_transitive(f, k1, next.objects@[j].key@);
        }
    }
    assert forall|o: ListedObject|
        #[trigger] m1.count(o) > 0 && !lex_less(k1, o.key@) implies first.objects@.contains(o) by {
        assert(all1.contains(o));
        let i = choose|i: int| 0 <= i < all1.len() && all1[i] == o;
        if i >= n1 {
            assert(all1[n1 - 1] == first.objects@[n1 - 1]);
            lemma_sorted_position(all1, candidates, prefix, start_after, n1 - 1, i);
        }
        assert(first.objects@[i] == o);
    }
    assert forall|o: ListedObject|
        #[trigger] m1.count(o) > 0 && lex_less(k1, o.key@) && n2 > 0 && !lex_less(
            next.next_after_key@,
            o.key@,
        ) implies next.objects@.contains(o) by {
        lemma_listable_count(candidates, prefix, start_after, o);
        lemma_listable_count(candidates, prefix, k1, o);
        assert(m2.count(o) > 0);
        assert(all2.contains(o));
        let j = choose|j: int| 0 <= j < all2.len() && all2[j] == o;
        if j >= n2 {
            assert(all2[n2 - 1] == next.objects@[n2 - 1]);
            lemma_sorted_position(all2, candidates, prefix, k1, n2 - 1, j);
        }
        assert(next.objects@[j] == o);
    }
    if n2 == 0 {
        assert forall|o: ListedObject| #[trigger] m1.count(o) > 0 implies !lex_less(k1, o.key@) by {
            if lex_less(k1, o.key@) {
                lemma_listable_count(candidates, prefix, start_after, o);
                lemma_listable_count(candidates, prefix, k1, o);
                assert(all2.contains(o));
                assert(all2.len() > 0);
            }
        }
    }
}

/// What one page of a listing of distinct keys holds: its keys rise strictly;
/// each of its objects belongs to the listing; it holds every object of the
/// listing up to its last key; and, when no more follow, all of them.
pub proof fn lemma_page_facts(
    candidates: Seq<ListedObject>,
    prefix: Seq<char>,
    start_after: Seq<char>,
    limit: usize,
    page: ListPage,
)
    requires
        distinct_keys(candidates),
        is_page_of(page, candidates, prefix, start_after, limit),
    ensures
        forall|i: int, j: int|
            0 <= i < j < page.objects@.len() ==> lex_less(
                #[trigger] page.objects@[i].key@,
                #[trigger] page.objects@[j].key@,
            ),
        forall|i: int|
            0 <= i < page.objects@.len() ==> listable_objects(candidates, prefix, start_after).count(
                #[trigger] page.objects@[i],
            ) > 0,
        forall|o: ListedObject|
            #[trigger] listable_objects(candidates, prefix, start_after).count(o) > 0
                && page.objects@.len() > 0 && !lex_less(page.objects@.last().key@, o.key@)
                ==> page.objects@.contains(o),
        !page.has_more ==> forall|o: ListedObject|
            #[trigger] listable_objects(candidates, prefix, start_after).count(o) > 0
                ==> page.objects@.contains(o),
{
    broadcast use vstd::seq_lib::group_to_multiset_ensures, vstd::multiset::group_multiset_axioms;

    let m = listable_objects(candidates, prefix, start_after);
    let cap = effective_limit_spec(limit) as int;
    let all = choose|all: Seq<ListedObject>|
        #![trigger all.to_multiset()]
        key_sorted(all) && all.to_multiset() == m && page.objects@ == all.take(
            if all.len() < cap {
                all.len() as int
            } else {
                cap
            },
        );
    let n = page.objects@.len() as int;
    assert forall|i: int, j: int| 0 <= i < j < n implies lex_less(
        #[trigger] page.objects@[i].key@,
        #[trigger] page.objects@[j].key@,
    ) by {
        assert(page.objects@[i] == all[i] && page.objects@[j] == all[j]);
        lemma_sorted_position(all, candidates, prefix, start_after, i, j);
    }
    assert forall|i: int| 0 <= i < n implies m.count(#[trigger] page.objects@[i]) > 0 by {
        assert(page.objects@[i] == all[i]);
        assert(all.contains(all[i]));
    }
    assert forall|o: ListedObject|
        #[trigger] m.count(o) > 0 && n > 0 && !lex_less(page.objects@.last().key@, o.key@)
            implies page.objects@.contains(o) by {
        assert(all.contains(o));
        let i = choose|i: int| 0 <= i < all.len() && all[i] == o;
        if i >= n {
            assert(all[n - 1] == page.objects@[n - 1]);
            lemma_sorted_position(all, candidates, prefix, start_after, n - 1, i);
        }
        assert(page.objects@[i] == o);
    }
    if !page.has_more {
        assert forall|o: ListedObject| #[trigger] m.count(o) > 0 implies page.objects@.contains(o) by {
            assert(all.contains(o));
            let i = choose|i: int| 0 <= i < all.len() && all[i] == o;
            assert(all.len() == m.len());
            assert(page.objects@[i] == o);
        }
    }
}

/// Pages of one listing, each listed after the last key of the one before.
pub open spec fn chained_pages(
    candidates: Seq<ListedObject>,
    prefix: Seq<char>,
    start_after: Seq<char>,
    limit: usize,
    pages: Seq<ListPage>,
) -> bool {
    &&& pages.len() > 0
    &&& is_page_of(pages[0], candidates, prefix, start_after, limit)
    &&& forall|i: int|
        0 < i < pages.len() ==> (#[trigger] pages[i - 1]).next_after_key@.len() > 0 && is_page_of(
            pages[i],
            candidates,
            prefix,
            pages[i - 1].next_after_key@,
            limit,
        )
}

/// The objects of `pages`, one page after another.
pub open spec fn paged_objects(pages: Seq<ListPage>) -> Seq<ListedObject>
    decreases pages.len(),
{
    if pages.len() == 0 {
        Seq::empty()
    } else {
        paged_objects(pages.drop_last()) + pages.last().objects@
    }
}

/// Paging through a listing of distinct keys, each page listed after the last
/// key of the one before, gives each object of the listing once and in key
/// order: the keys of all the pages together rise strictly; every object on
/// them belongs to the listing; every object of the listing up to the last key
/// read is on them; and once a page says no more follow, all of them are.
pub proof fn lemma_pages_give_each_object_once_in_order(
    candidates: Seq<ListedObject>,
    prefix: Seq<char>,
    start_after: Seq<char>,
    limit: usize,
    pages: Seq<ListPage>,
)
    requires
        distinct_keys(candidates),
        chained_pages(candidates, prefix, start_after, limit, pages),
    ensures
        forall|i: int, j: int|
            0 <= i < j < paged_objects(pages).len() ==> lex_less(
                #[trigger] paged_objects(pages)[i].key@,
                #[trigger] paged_objects(pages)[j].key@,
            ),
        forall|i: int|
            0 <= i < paged_objects(pages).len() ==> listable_objects(
                candidates,
                prefix,
                start_after,
            ).count(#[trigger] paged_objects(pages)[i]) > 0,
        forall|o: ListedObject|
            #[trigger] listable_objects(candidates, prefix, start_after).count(o) > 0
                && paged_objects(pages).len() > 0 && !lex_less(
                paged_objects(pages).last().key@,
                o.key@,
            ) ==> paged_objects(pages).contains(o),
        !pages.last().has_more ==> forall|o: ListedObject|
            #[trigger] listable_objects(candidates, prefix, start_after).count(o) > 0
                ==> paged_objects(pages).contains(o),
    decreases pages.len(),
{
    broadcast use vstd::seq_lib::group_to_multiset_ensures, vstd::multiset::group_multiset_axioms;

    let m = listable_objects(candidates, prefix, start_after);
    let flat = paged_objects(pages);
    if pages.len() == 1 {
        assert(pages.drop_last() =~= Seq::<ListPage>::empty());
        assert(flat =~= pages[0].objects@);
        lemma_page_facts(candidates, prefix, start_after, limit, pages[0]);
        return;
    }
    let before = pages.drop_last();
    let q = pages.last();
    assert(chained_pages(candidates, prefix, start_after, limit, before)) by {
        assert forall|i: int| 0 < i < before.len() implies (#[trigger] before[i - 1]).next_after_key@.len()
            > 0 && is_page_of(before[i], candidates, prefix, before[i - 1].next_after_key@, limit) by {
            assert(before[i - 1] == pages[i - 1] && before[i] == pages[i]);
            assert(0 < i < pages.len());
            assert(pages[i - 1].next_after_key@.len() > 0);
        }
    }
    lemma_pages_give_each_object_once_in_order(candidates, prefix, start_after, limit, before);
    let prev = paged_objects(before);
    let k = pages[pages.len() - 2].next_after_key@;
    assert(pages[pages.len() - 1 - 1] == pages[pages.len() - 2]);
    assert(k.len() > 0);
    assert(is_page_of(q, candidates, prefix, k, limit));
    let last_before = before.last();
    assert(last_before == pages[pages.len() - 2]);
    // the last page before is not empty, and `k` is its last key
    if pages.len() - 2 > 0 {
        let i = pages.len() - 2;
        assert(is_page_of(pages[i], candidates, prefix, pages[i - 1].next_after_key@, limit));
    }
    assert(last_before.next_after_key@ == if last_before.objects@.len() == 0 {
        Seq::<char>::empty()
    } else {
        last_before.objects@.last().key@
    });
    assert(last_before.objects@.len() > 0);
    assert(paged_objects(before) =~= paged_objects(before.drop_last()) + last_before.objects@);
    assert(prev.len() > 0);
    assert(prev.last() == last_before.objects@.last());
    assert(prev.last().key@ == k);
    let m2 = listable_objects(candidates, prefix, k);
    lemma_page_facts(candidates, prefix, k, limit, q);
    let n0 = prev.len() as int;
    let nq = q.objects@.len() as int;
    assert(flat =~= prev + q.objects@);
    // every earlier key is at most `k`; every later key is after it
    assert forall|i: int| 0 <= i < n0 implies !lex_less(k, #[trigger] prev[i].key@) by {
        if i < n0 - 1 {
            assert(lex_less(prev[i].key@, prev[n0 - 1].key@));
            lemma_lex_less_asymmetric(prev[i].key@, k);
        }
    }
    assert forall|j: int| 0 <= j < nq implies lex_less(k, #[trigger] q.objects@[j].key@) by {
        lemma_listable_count(candidates, prefix, k, q.objects@[j]);
        assert(m2.count(q.objects@[j]) > 0);
    }
    assert forall|i: int, j: int| 0 <= i < j < flat.len() implies lex_less(
        #[trigger] flat[i].key@,
        #[trigger] flat[j].key@,
    ) by {
        if j < n0 {
            assert(flat[i] == prev[i] && flat[j] == prev[j]);
        } else if i >= n0 {
            assert(flat[i] == q.objects@[i - n0] && flat[j] == q.objects@[j - n0]);
        } else {
            assert(flat[i] == prev[i] && flat[j] == q.objects@[j - n0]);
            let a = prev[i].key@;
            assert(!lex_less(k, a));
            lemma_lex_less_total(a, k);
            if lex_less(a, k) {
                lemma_lex_less_transitive(a, k, flat[j].key@);
            }
        }
    }
    assert forall|i: int| 0 <= i < flat.len() implies m.count(#[trigger] flat[i]) > 0 by {
        if i < n0 {
            assert(flat[i] == prev[i]);
        } else {
            let o = q.objects@[i - n0];
            assert(flat[i] == o);
            assert(m2.count(o) > 0);
            lemma_listable_count(candidates, prefix, k, o);
            lemma_listable_count(candidates, prefix, start_after, o);
            assert(m.count(prev[n0 - 1]) > 0);
            lemma_listable_count(candidates, prefix, start_after, prev[n0 - 1]);
            if start_after.len() > 0 {
                lemma_lex_less_transitive(start_after, k, o.key@);
            }
        }
    }
    assert forall|o: ListedObject|
        #[trigger] m.count(o) > 0 && flat.len() > 0 && !lex_less(flat.last().key@, o.key@)
            implies flat.contains(o) by {
        lemma_lex_less_total(o.key@, k);
        if !lex_less(k, o.key@) {
            assert(prev.contains(o));
            let i = choose|i: int| 0 <= i < prev.len() && prev[i] == o;
            assert(flat[i] == o);
        } else {
            lemma_listable_count(candidates, prefix, start_after, o);
            lemma_listable_count(candidates, prefix, k, o);
            assert(m2.count(o) > 0);
            if nq == 0 {
                assert(flat.last() == prev.last());
                lemma_lex_less_asymmetric(k, o.key@);
            }
            assert(flat.last() == q.objects@.last());
            assert(q.objects@.contains(o));
            let j = choose|j: int| 0 <= j < q.objects@.len() && q.objects@[j] == o;
            assert(flat[n0 + j] == o);
        }
    }
    if !q.has_more {
        assert forall|o: ListedObject| #[trigger] m.count(o) > 0 implies flat.contains(o) by {
            lemma_lex_less_total(o.key@, k);
            if !lex_less(k, o.key@) {
                assert(prev.contains(o));
                let i = choose|i: int| 0 <= i < prev.len() && prev[i] == o;
                assert(flat[i] == o);
            } else {
                lemma_listable_count(candidates, prefix, start_after, o);
                lemma_listable_count(candidates, prefix, k, o);
                assert(m2.count(o) > 0);
                assert(q.objects@.contains(o));
                let j = choose|j: int| 0 <= j < q.objects@.len() && q.objects@[j] == o;
                assert(flat[n0 + j] == o);
            }
        }
    }
}

} // verus!
