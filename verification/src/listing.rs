use vstd::prelude::*;
use crate::note::{Note, Notes, first_position, position_of};
use crate::text::{chars_of, contains_chars, contains_seq, trim, trim_chars, string_of};

verus! {

// ---------------------------------------------------------------------------
// Search
// ---------------------------------------------------------------------------

/// What `str::to_lowercase` returns for a string (Unicode lower case).
pub uninterp spec fn lowercase_of(s: Seq<char>) -> Seq<char>;

/// `str::to_lowercase`. Trusted: the result is the lower-case form that std
/// computes from the characters of `s` alone; nothing more is stated of it.
#[verifier::external_body]
fn lowercase(s: &str) -> (r: String)
    ensures
        r@ == lowercase_of(s@),
{
    s.to_lowercase()
}

/// A note matches the search when the search is empty, or occurs in the
/// lower-case title or the lower-case body.
pub open spec fn matches_query(title_lower: Seq<char>, content_lower: Seq<char>, query: Seq<char>) -> bool {
    query.len() == 0 || contains_seq(title_lower, query) || contains_seq(content_lower, query)
}

/// A note matches a search key exactly when the key is empty or occurs as a
/// run of consecutive characters anywhere in its lower-case title or anywhere
/// in its lower-case body (every line of it).
pub proof fn law_match_anywhere(title_lower: Seq<char>, content_lower: Seq<char>, query: Seq<char>)
    ensures
        query.len() == 0 ==> matches_query(title_lower, content_lower, query),
        forall|i: int|
            0 <= i && i + query.len() <= content_lower.len() && #[trigger] content_lower.subrange(
                i,
                i + query.len(),
            ) == query ==> matches_query(title_lower, content_lower, query),
        forall|i: int|
            0 <= i && i + query.len() <= title_lower.len() && #[trigger] title_lower.subrange(
                i,
                i + query.len(),
            ) == query ==> matches_query(title_lower, content_lower, query),
        matches_query(title_lower, content_lower, query) && query.len() > 0 ==> (exists|i: int|
            0 <= i && i + query.len() <= title_lower.len() && #[trigger] title_lower.subrange(
                i,
                i + query.len(),
            ) == query) || (exists|i: int|
            0 <= i && i + query.len() <= content_lower.len() && #[trigger] content_lower.subrange(
                i,
                i + query.len(),
            ) == query),
{
}

/// The search key of what was typed in the search box: trimmed, then
/// lower-cased.
pub fn search_query(search: &str) -> (q: String)
    ensures
        q@ == lowercase_of(trim(search@)),
{
    let v = chars_of(search);
    let t = trim_chars(&v);
    let s = string_of(&t);
    lowercase(s.as_str())
}

/// Whether a note whose lower-case title and body are given matches the
/// search key `query`.
pub fn text_matches(title_lower: &str, content_lower: &str, query: &str) -> (b: bool)
    ensures
        b == matches_query(title_lower@, content_lower@, query@),
{
    let q = chars_of(query);
    if q.len() == 0 {
        return true;
    }
    let t = chars_of(title_lower);
    if contains_chars(&t, &q) {
        return true;
    }
    let c = chars_of(content_lower);
    contains_chars(&c, &q)
}

/// Whether `note` matches the search key `query`.
pub fn note_matches(note: &Note, query: &str) -> (b: bool)
    ensures
        b == matches_query(lowercase_of(note.title@), lowercase_of(note.content@), query@),
{
    let t = lowercase(note.title.as_str());
    let c = lowercase(note.content.as_str());
    text_matches(t.as_str(), c.as_str(), query)
}

// ---------------------------------------------------------------------------
// Order of the note list
// ---------------------------------------------------------------------------

/// The time by which the note at index `p` is ordered: the last update of the
/// first note that has its identifier.
#[verifier::opaque]
pub open spec fn recency(notes: Seq<Note>, p: int) -> int {
    notes[position_of(notes, notes[p].id).unwrap()].updated as int
}

/// In the note list, the note at index `p` is shown before the one at `q`:
/// it was updated later, or at the same time and comes first.
pub open spec fn shown_before(notes: Seq<Note>, p: int, q: int) -> bool {
    recency(notes, p) > recency(notes, q) || (recency(notes, p) == recency(notes, q) && p < q)
}

/// `order` lists the indices of exactly the notes picked by `picked`, the most
/// recently updated first, ties in the order of the notes.
pub open spec fn is_listing(notes: Seq<Note>, picked: Seq<bool>, order: Seq<usize>) -> bool {
    &&& forall|i: int| 0 <= i < order.len() ==> #[trigger] order[i] < notes.len() && picked[order[i] as int]
    &&& forall|p: int| 0 <= p < notes.len() && #[trigger] picked[p] ==> order.contains(p as usize)
    &&& forall|i: int, j: int|
        0 <= i < j < order.len() ==> shown_before(notes, #[trigger] order[i] as int, #[trigger] order[j] as int)
}

proof fn lemma_position_exists(notes: Seq<Note>, p: int)
    requires
        0 <= p < notes.len(),
    ensures
        position_of(notes, notes[p].id) is Some,
{
    reveal(position_of);
    assert(notes[p].id == notes[p].id);
}

proof fn lemma_recency_at(notes: Seq<Note>, p: int, k: int)
    requires
        0 <= p < notes.len(),
        position_of(notes, notes[p].id) == Some(k),
    ensures
        recency(notes, p) == notes[k].updated as int,
{
    reveal(recency);
}

/// The ordering time of every note.
fn recencies(notes: &Vec<Note>) -> (keys: Vec<u64>)
    ensures
        keys@.len() == notes@.len(),
        forall|p: int| 0 <= p < notes@.len() ==> #[trigger] keys@[p] as int == recency(notes@, p),
{
    let n = notes.len();
    let mut keys: Vec<u64> = Vec::new();
    for p in 0..n
        invariant
            n == notes@.len(),
            keys@.len() == p,
            forall|q: int| 0 <= q < p ==> #[trigger] keys@[q] as int == recency(notes@, q),
    {
        let id = notes[p].id;
        proof {
            lemma_position_exists(notes@, p as int);
        }
        match first_position(notes, id) {
            Some(k) => {
                proof {
                    lemma_recency_at(notes@, p as int, k as int);
                }
                keys.push(notes[k].updated);
            },
            None => {
                keys.push(0);
            },
        }
    }
    keys
}

proof fn lemma_shown_before_total(notes: Seq<Note>, p: int, q: int)
    requires
        p != q,
    ensures
        shown_before(notes, p, q) || shown_before(notes, q, p),
        !(shown_before(notes, p, q) && shown_before(notes, q, p)),
{
}

proof fn lemma_shown_before_transitive(notes: Seq<Note>, p: int, q: int, r: int)
    requires
        shown_before(notes, p, q),
        shown_before(notes, q, r),
    ensures
        shown_before(notes, p, r),
{
}

/// The identifiers of the notes picked by `picked`, most recently updated
/// first, ties in the order of the notes (a stable sort by last update, newest
/// first).
pub fn order_by_recent(notes: &Vec<Note>, picked: &Vec<bool>) -> (ids: Vec<u64>)
    requires
        picked@.len() == notes@.len(),
    ensures
        exists|order: Seq<usize>|
            is_listing(notes@, picked@, order) && ids@ == order.map_values(
                |p: usize| notes@[p as int].id,
            ),
{
    let n = notes.len();
    let keys = recencies(notes);
    let mut order: Vec<usize> = Vec::new();
    for p in 0..n
        invariant
            n == notes@.len(),
            picked@.len() == n,
            keys@.len() == n,
            forall|q: int| 0 <= q < n ==> #[trigger] keys@[q] as int == recency(notes@, q),
            forall|i: int| 0 <= i < order@.len() ==> #[trigger] order@[i] < p && picked@[order@[i] as int],
            forall|q: int| 0 <= q < p && #[trigger] picked@[q] ==> order@.contains(q as usize),
            forall|i: int, j: int|
                0 <= i < j < order@.len() ==> shown_before(
                    notes@,
                    #[trigger] order@[i] as int,
                    #[trigger] order@[j] as int,
                ),
    {
        if picked[p] {
            let mut k: usize = 0;
            while k < order.len() && (keys[order[k]] > keys[p] || (keys[order[k]] == keys[p]
                && order[k] < p))
                invariant
                    n == notes@.len(),
                    keys@.len() == n,
                    forall|q: int| 0 <= q < n ==> #[trigger] keys@[q] as int == recency(notes@, q),
                    forall|i: int| 0 <= i < order@.len() ==> #[trigger] order@[i] < p,
                    p < n,
                    k <= order@.len(),
                    forall|i: int| 0 <= i < k ==> shown_before(notes@, #[trigger] order@[i] as int, p as int),
                decreases order@.len() - k,
            {
                k = k + 1;
            }
            let ghost old_order = order@;
            proof {
                if k < old_order.len() {
                    assert(!shown_before(notes@, old_order[k as int] as int, p as int));
                    lemma_shown_before_total(notes@, old_order[k as int] as int, p as int);
                    assert forall|i: int| k <= i < old_order.len() implies shown_before(
                        notes@,
                        p as int,
                        #[trigger] old_order[i] as int,
                    ) by {
                        if i > k {
                            lemma_shown_before_transitive(
                                notes@,
                                p as int,
                                old_order[k as int] as int,
                                old_order[i] as int,
                            );
                        }
                    }
                }
            }
            order.insert(k, p);
            proof {
                let s = order@;
                assert(s == old_order.insert(k as int, p));
                assert forall|i: int, j: int| 0 <= i < j < s.len() implies shown_before(
                    notes@,
                    #[trigger] s[i] as int,
                    #[trigger] s[j] as int,
                ) by {
                    if j < k {
                        assert(s[i] == old_order[i] && s[j] == old_order[j]);
                    } else if j == k {
                        assert(s[i] == old_order[i]);
                    } else if i == k {
                        assert(s[j] == old_order[j - 1]);
                    } else if i < k {
                        assert(s[i] == old_order[i] && s[j] == old_order[j - 1]);
                    } else {
                        assert(s[i] == old_order[i - 1] && s[j] == old_order[j - 1]);
                    }
                }
                assert forall|q: int| 0 <= q < p + 1 && #[trigger] picked@[q] implies s.contains(
                    q as usize,
                ) by {
                    if q == p {
                        assert(s[k as int] == p);
                    } else {
                        assert(old_order.contains(q as usize));
                        let i = choose|i: int| 0 <= i < old_order.len() && old_order[i] == q as usize;
                        if i < k {
                            assert(s[i] == q as usize);
                        } else {
                            assert(s[i + 1] == q as usize);
                        }
                    }
                }
                assert forall|i: int| 0 <= i < s.len() implies #[trigger] s[i] < p + 1
                    && picked@[s[i] as int] by {
                    if i < k {
                        assert(s[i] == old_order[i]);
                    } else if i > k {
                        assert(s[i] == old_order[i - 1]);
                    }
                }
            }
        }
    }
    let m = order.len();
    let mut ids: Vec<u64> = Vec::new();
    for i in 0..m
        invariant
            m == order@.len(),
            n == notes@.len(),
            forall|k: int| 0 <= k < order@.len() ==> #[trigger] order@[k] < n,
            ids@ == order@.take(i as int).map_values(|p: usize| notes@[p as int].id),
    {
        ids.push(notes[order[i]].id);
        assert(order@.take(i + 1) =~= order@.take(i as int).push(order@[i as int]));
    }
    assert(order@.take(m as int) =~= order@);
    assert(is_listing(notes@, picked@, order@));
    ids
}

/// What the note list says where it shows no note: that there are no notes
/// yet, or, while searching, that none matches.
pub open spec fn empty_list_text(query: Seq<char>) -> Seq<char> {
    if query.len() == 0 {
        "还没有便签"@
    } else {
        "没有匹配的便签"@
    }
}

/// What the note list says where it shows no note, for the search key `query`.
pub fn empty_list_message(query: &str) -> (r: String)
    ensures
        r@ == empty_list_text(query@),
{
    if query.is_empty() {
        String::from_str("还没有便签")
    } else {
        String::from_str("没有匹配的便签")
    }
}

/// For each note, whether it matches what was typed in the search box.
pub open spec fn search_picks(notes: Seq<Note>, search: Seq<char>) -> Seq<bool> {
    notes.map_values(
        |n: Note|
            matches_query(lowercase_of(n.title@), lowercase_of(n.content@), lowercase_of(trim(search))),
    )
}

/// The identifiers of the notes that match the search `search`, as the note
/// list shows them: most recently updated first.
pub fn visible_ids(notes: &Notes, search: &str) -> (ids: Vec<u64>)
    ensures
        exists|order: Seq<usize>|
            #[trigger] is_listing(notes.notes@, search_picks(notes.notes@, search@), order)
                && ids@ == order.map_values(|p: usize| notes.notes@[p as int].id),
{
    let q = search_query(search);
    let n = notes.notes.len();
    let mut picked: Vec<bool> = Vec::new();
    for p in 0..n
        invariant
            n == notes.notes@.len(),
            q@ == lowercase_of(trim(search@)),
            picked@ == search_picks(notes.notes@.take(p as int), search@),
    {
        let b = note_matches(&notes.notes[p], q.as_str());
        picked.push(b);
        assert(notes.notes@.take(p + 1) =~= notes.notes@.take(p as int).push(notes.notes@[p as int]));
    }
    assert(notes.notes@.take(n as int) =~= notes.notes@);
    assert(picked@ =~= search_picks(notes.notes@, search@));
    order_by_recent(&notes.notes, &picked)
}

} // verus!
