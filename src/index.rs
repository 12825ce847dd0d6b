//! The filter/facet index: which notes the query and the active tag filters
//! let through, and how often each tag occurs among them.
use vstd::prelude::*;
use crate::text::{chars_of, contains_infix, has_infix, lower_of, lowercase, views_of};

verus! {

/// A note as the session holds it.
#[derive(Debug, Clone)]
pub struct NoteEntry {
    pub id: i64,
    pub title: String,
    pub note: String,
    pub tags: Vec<String>,
    pub updated_at: String,
}

/// A tag and how many of the visible notes carry it.
#[derive(Debug, Clone)]
pub struct TagEntry {
    pub name: String,
    pub count: usize,
}

impl View for TagEntry {
    type V = (Seq<char>, nat);

    open spec fn view(&self) -> (Seq<char>, nat) {
        (self.name@, self.count as nat)
    }
}

/// The entries `v` as views.
pub open spec fn entries_view(v: Seq<TagEntry>) -> Seq<(Seq<char>, nat)> {
    v.map_values(|e: TagEntry| e@)
}

/// Whether `t` equals one of `names`.
pub open spec fn names_hold(names: Seq<String>, t: Seq<char>) -> bool {
    views_of(names).contains(t)
}

/// The tag-filter predicate: no active filter, or the note carries an active tag.
pub open spec fn tag_selected(note: NoteEntry, active: Seq<Seq<char>>) -> bool {
    active.len() == 0 || exists|i: int|
        0 <= i < note.tags@.len() && active.contains(#[trigger] note.tags@[i]@)
}

/// The query predicate for a lower-cased query `q`: empty, or a substring of the
/// lower-cased title, body or one of the tags.
pub open spec fn query_hit(note: NoteEntry, q: Seq<char>) -> bool {
    ||| q.len() == 0
    ||| has_infix(lower_of(note.title@), q)
    ||| has_infix(lower_of(note.note@), q)
    ||| exists|i: int| 0 <= i < note.tags@.len() && has_infix(lower_of(#[trigger] note.tags@[i]@), q)
}

/// Whether a note is visible under `query` and the active tag filters.
pub open spec fn visible(note: NoteEntry, query: Seq<char>, active: Seq<Seq<char>>) -> bool {
    tag_selected(note, active) && query_hit(note, lower_of(query))
}

/// The indices of the visible notes, in order.
pub open spec fn filter_indices(notes: Seq<NoteEntry>, query: Seq<char>, active: Seq<Seq<char>>) -> Seq<usize>
    decreases notes.len(),
{
    if notes.len() == 0 {
        Seq::empty()
    } else {
        let prev = filter_indices(notes.drop_last(), query, active);
        if visible(notes.last(), query, active) {
            prev.push((notes.len() - 1) as usize)
        } else {
            prev
        }
    }
}

/// The indices `0..n`.
pub open spec fn all_indices(n: nat) -> Seq<usize> {
    Seq::new(n, |i: int| i as usize)
}

/// How often `name` occurs in `tags`.
pub open spec fn count_in(tags: Seq<String>, name: Seq<char>) -> nat
    decreases tags.len(),
{
    if tags.len() == 0 {
        0
    } else {
        count_in(tags.drop_last(), name) + if tags.last()@ == name { 1nat } else { 0nat }
    }
}

/// How often `name` occurs in the tags of the notes at `idx`.
pub open spec fn occ(notes: Seq<NoteEntry>, idx: Seq<usize>, name: Seq<char>) -> nat
    decreases idx.len(),
{
    if idx.len() == 0 {
        0
    } else {
        occ(notes, idx.drop_last(), name) + count_in(notes[idx.last() as int].tags@, name)
    }
}

/// How many tags the notes at `idx` carry together.
pub open spec fn tag_total(notes: Seq<NoteEntry>, idx: Seq<usize>) -> nat
    decreases idx.len(),
{
    if idx.len() == 0 {
        0
    } else {
        tag_total(notes, idx.drop_last()) + notes[idx.last() as int].tags@.len()
    }
}

/// Strict lexicographic order on character sequences, by code point
/// (the order of `String`'s `cmp`, as UTF-8 keeps code point order).
pub open spec fn str_lt(a: Seq<char>, b: Seq<char>) -> bool
    decreases a.len(),
{
    if a.len() == 0 {
        b.len() > 0
    } else if b.len() == 0 {
        false
    } else if a[0] != b[0] {
        a[0] < b[0]
    } else {
        str_lt(a.drop_first(), b.drop_first())
    }
}

/// The display order of facets: by count, descending, then by name, ascending.
pub open spec fn facet_before(a: (Seq<char>, nat), b: (Seq<char>, nat)) -> bool {
    a.1 > b.1 || (a.1 == b.1 && str_lt(a.0, b.0))
}

/// `r` is the facet table of the notes at `idx`: one entry per tag that occurs,
/// with its number of occurrences, in display order.
pub open spec fn is_facets(r: Seq<(Seq<char>, nat)>, notes: Seq<NoteEntry>, idx: Seq<usize>) -> bool {
    &&& forall|i: int| 0 <= i < r.len() ==> #[trigger] r[i].1 == occ(notes, idx, r[i].0) && r[i].1 > 0
    &&& forall|name: Seq<char>| occ(notes, idx, name) > 0 ==> exists|i: int| 0 <= i < r.len() && #[trigger] r[i].0 == name
    &&& forall|i: int, j: int| 0 <= i < j < r.len() ==> facet_before(#[trigger] r[i], #[trigger] r[j])
}

/// Indices that all point into `notes`.
pub open spec fn indices_in(idx: Seq<usize>, n: nat) -> bool {
    forall|i: int| 0 <= i < idx.len() ==> #[trigger] idx[i] < n
}


proof fn lemma_str_lt_irreflexive(a: Seq<char>)
    ensures
        !str_lt(a, a),
    decreases a.len(),
{
    if a.len() > 0 {
        lemma_str_lt_irreflexive(a.drop_first());
    }
}

proof fn lemma_str_lt_asym(a: Seq<char>, b: Seq<char>)
    ensures
        str_lt(a, b) ==> !str_lt(b, a),
    decreases a.len(),
{
    if a.len() > 0 && b.len() > 0 && a[0] == b[0] {
        lemma_str_lt_asym(a.drop_first(), b.drop_first());
    }
}

proof fn lemma_str_lt_total(a: Seq<char>, b: Seq<char>)
    ensures
        a != b ==> str_lt(a, b) || str_lt(b, a),
    decreases a.len(),
{
    if a.len() > 0 && b.len() > 0 && a[0] == b[0] {
        lemma_str_lt_total(a.drop_first(), b.drop_first());
        if a.drop_first() == b.drop_first() {
            assert(a =~= seq![a[0]] + a.drop_first());
            assert(b =~= seq![b[0]] + b.drop_first());
        }
    } else if a.len() == 0 && b.len() == 0 {
        assert(a =~= b);
    }
}

proof fn lemma_str_lt_trans(a: Seq<char>, b: Seq<char>, c: Seq<char>)
    ensures
        str_lt(a, b) && str_lt(b, c) ==> str_lt(a, c),
    decreases a.len(),
{
    if a.len() > 0 && b.len() > 0 && c.len() > 0 {
        lemma_str_lt_trans(a.drop_first(), b.drop_first(), c.drop_first());
    }
}

proof fn lemma_before_trans(a: (Seq<char>, nat), b: (Seq<char>, nat), c: (Seq<char>, nat))
    ensures
        facet_before(a, b) && facet_before(b, c) ==> facet_before(a, c),
{
    lemma_str_lt_trans(a.0, b.0, c.0);
}

proof fn lemma_before_total(a: (Seq<char>, nat), b: (Seq<char>, nat))
    ensures
        a.0 != b.0 ==> facet_before(a, b) || facet_before(b, a),
        facet_before(a, b) ==> !facet_before(b, a),
{
    lemma_str_lt_total(a.0, b.0);
    lemma_str_lt_asym(a.0, b.0);
}

/// Whether `a` comes strictly before `b` in code point order.
fn str_less(a: &Vec<char>, b: &Vec<char>) -> (r: bool)
    ensures
        r == str_lt(a@, b@),
{
    let mut i: usize = 0;
    assert(a@.skip(0) =~= a@);
    assert(b@.skip(0) =~= b@);
    while i < a.len() && i < b.len() && a[i] == b[i]
        invariant
            i <= a.len(),
            i <= b.len(),
            str_lt(a@, b@) == str_lt(a@.skip(i as int), b@.skip(i as int)),
        decreases a.len() - i,
    {
        proof {
            assert(a@.skip(i as int).drop_first() =~= a@.skip(i + 1));
            assert(b@.skip(i as int).drop_first() =~= b@.skip(i + 1));
        }
        i = i + 1;
    }
    if i == a.len() {
        i < b.len()
    } else if i == b.len() {
        false
    } else {
        a[i] < b[i]
    }
}

/// Whether a name equal to `t` is among `names`.
pub fn holds_name(names: &Vec<String>, t: &String) -> (r: bool)
    ensures
        r == names_hold(names@, t@),
{
    let mut k: usize = 0;
    while k < names.len()
        invariant
            k <= names.len(),
            forall|m: int| 0 <= m < k ==> names@[m]@ != t@,
        decreases names.len() - k,
    {
        if names[k] == *t {
            assert(views_of(names@)[k as int] == t@);
            return true;
        }
        k = k + 1;
    }
    proof {
        if views_of(names@).contains(t@) {
            let m = choose|m: int| 0 <= m < views_of(names@).len() && views_of(names@)[m] == t@;
            assert(names@[m]@ == t@);
        }
    }
    false
}

/// Whether `q` occurs in the lower-cased `s`.
fn lower_hit(s: &String, q: &Vec<char>) -> (r: bool)
    ensures
        r == has_infix(lower_of(s@), q@),
{
    let l = lowercase(s.as_str());
    let lc = chars_of(l.as_str());
    contains_infix(&lc, q)
}

/// Whether `note` passes the tag filters `active` and the lower-cased query `q`.
pub fn note_matches(note: &NoteEntry, q: &Vec<char>, active: &Vec<String>) -> (r: bool)
    ensures
        r == (tag_selected(*note, views_of(active@)) && query_hit(*note, q@)),
{
    if active.len() > 0 {
        let mut found = false;
        let mut i: usize = 0;
        while i < note.tags.len()
            invariant
                i <= note.tags.len(),
                found == exists|k: int| 0 <= k < i && views_of(active@).contains(#[trigger] note.tags@[k]@),
            decreases note.tags.len() - i,
        {
            if holds_name(active, &note.tags[i]) {
                found = true;
            }
            i = i + 1;
        }
        if !found {
            return false;
        }
    }
    if q.len() == 0 {
        return true;
    }
    if lower_hit(&note.title, q) || lower_hit(&note.note, q) {
        return true;
    }
    let mut i: usize = 0;
    while i < note.tags.len()
        invariant
            i <= note.tags.len(),
            tag_selected(*note, views_of(active@)),
            q@.len() > 0,
            !has_infix(lower_of(note.title@), q@),
            !has_infix(lower_of(note.note@), q@),
            forall|k: int| 0 <= k < i ==> !has_infix(lower_of(#[trigger] note.tags@[k]@), q@),
        decreases note.tags.len() - i,
    {
        if lower_hit(&note.tags[i], q) {
            return true;
        }
        i = i + 1;
    }
    false
}

/// The indices of the notes visible under `query` and the active tag filters, in order.
pub fn filter_notes(notes: &Vec<NoteEntry>, query: &str, active: &Vec<String>) -> (r: Vec<usize>)
    ensures
        r@ == filter_indices(notes@, query@, views_of(active@)),
        query@.len() == 0 ==> lower_of(query@).len() == 0,
{
    let lq = lowercase(query);
    let q = chars_of(lq.as_str());
    let mut r: Vec<usize> = Vec::new();
    let mut i: usize = 0;
    while i < notes.len()
        invariant
            i <= notes.len(),
            q@ == lower_of(query@),
            r@ == filter_indices(notes@.take(i as int), query@, views_of(active@)),
        decreases notes.len() - i,
    {
        proof {
            assert(notes@.take(i + 1).drop_last() == notes@.take(i as int));
        }
        if note_matches(&notes[i], &q, active) {
            r.push(i);
        }
        i = i + 1;
    }
    proof {
        assert(notes@.take(notes.len() as int) == notes@);
    }
    r
}

proof fn lemma_count_le(tags: Seq<String>, name: Seq<char>)
    ensures
        count_in(tags, name) <= tags.len(),
    decreases tags.len(),
{
    if tags.len() > 0 {
        lemma_count_le(tags.drop_last(), name);
    }
}

proof fn lemma_occ_le_total(notes: Seq<NoteEntry>, idx: Seq<usize>, name: Seq<char>)
    ensures
        occ(notes, idx, name) <= tag_total(notes, idx),
    decreases idx.len(),
{
    if idx.len() > 0 {
        lemma_occ_le_total(notes, idx.drop_last(), name);
        lemma_count_le(notes[idx.last() as int].tags@, name);
    }
}

pub proof fn lemma_total_prefix(notes: Seq<NoteEntry>, idx: Seq<usize>, i: int)
    requires
        0 <= i <= idx.len(),
    ensures
        tag_total(notes, idx.take(i)) <= tag_total(notes, idx),
    decreases idx.len() - i,
{
    if i < idx.len() {
        lemma_total_prefix(notes, idx, i + 1);
        assert(idx.take(i + 1).drop_last() == idx.take(i));
    } else {
        assert(idx.take(i) == idx);
    }
}

proof fn lemma_count_step(tags: Seq<String>, j: int)
    requires
        0 <= j < tags.len(),
    ensures
        forall|name: Seq<char>| #[trigger] count_in(tags.take(j + 1), name) == count_in(tags.take(j), name) + if tags[j]@ == name { 1nat } else { 0nat },
{
    assert(tags.take(j + 1).drop_last() == tags.take(j));
    assert(tags.take(j + 1).last() == tags[j]);
}

/// Occurrences of `name` in the notes `idx[..i]` and the first `j` tags of note `idx[i]`.
pub open spec fn occ_upto(notes: Seq<NoteEntry>, idx: Seq<usize>, i: int, j: int, name: Seq<char>) -> nat {
    occ(notes, idx.take(i), name) + count_in(notes[idx[i] as int].tags@.take(j), name)
}

/// The table of tags and their occurrences in the notes at `idx`, in order of first occurrence.
fn count_tags(notes: &Vec<NoteEntry>, idx: &Vec<usize>) -> (r: Vec<TagEntry>)
    requires
        indices_in(idx@, notes@.len()),
        tag_total(notes@, idx@) <= usize::MAX,
    ensures
        forall|k: int| 0 <= k < r@.len() ==> #[trigger] r@[k].count as nat == occ(notes@, idx@, r@[k].name@) && r@[k].count > 0,
        forall|name: Seq<char>| occ(notes@, idx@, name) > 0 ==> exists|k: int| 0 <= k < r@.len() && #[trigger] r@[k].name@ == name,
        forall|k: int, m: int| 0 <= k < m < r@.len() ==> #[trigger] r@[k].name@ != #[trigger] r@[m].name@,
{
    let mut r: Vec<TagEntry> = Vec::new();
    let mut i: usize = 0;
    while i < idx.len()
        invariant
            i <= idx.len(),
            indices_in(idx@, notes@.len()),
            tag_total(notes@, idx@) <= usize::MAX,
            forall|k: int| 0 <= k < r@.len() ==> #[trigger] r@[k].count as nat == occ(notes@, idx@.take(i as int), r@[k].name@) && r@[k].count > 0,
            forall|name: Seq<char>| occ(notes@, idx@.take(i as int), name) > 0 ==> exists|k: int| 0 <= k < r@.len() && #[trigger] r@[k].name@ == name,
            forall|k: int, m: int| 0 <= k < m < r@.len() ==> #[trigger] r@[k].name@ != #[trigger] r@[m].name@,
        decreases idx.len() - i,
    {
        let note = &notes[idx[i]];
        let ghost n = idx@[i as int] as int;
        let mut j: usize = 0;
        proof {
            assert(notes@[n].tags@.take(0) =~= Seq::<String>::empty());
        }
        while j < note.tags.len()
            invariant
                i < idx.len(),
                j <= note.tags.len(),
                n == idx@[i as int],
                0 <= n < notes@.len(),
                *note == notes@[n],
                tag_total(notes@, idx@) <= usize::MAX,
                forall|k: int| 0 <= k < r@.len() ==> #[trigger] r@[k].count as nat == occ_upto(notes@, idx@, i as int, j as int, r@[k].name@) && r@[k].count > 0,
                forall|name: Seq<char>| occ_upto(notes@, idx@, i as int, j as int, name) > 0 ==> exists|k: int| 0 <= k < r@.len() && #[trigger] r@[k].name@ == name,
                forall|k: int, m: int| 0 <= k < m < r@.len() ==> #[trigger] r@[k].name@ != #[trigger] r@[m].name@,
            decreases note.tags.len() - j,
        {
            let t = &note.tags[j];
            let ghost tg = notes@[n].tags@;
            proof {
                lemma_count_step(tg, j as int);
                lemma_occ_le_total(notes@, idx@.take(i as int), t@);
                lemma_count_le(tg.take(j + 1), t@);
                lemma_total_prefix(notes@, idx@, i + 1);
                assert(idx@.take(i + 1).drop_last() == idx@.take(i as int));
                assert(idx@.take(i + 1).last() == idx@[i as int]);
            }
            let mut k: usize = 0;
            while k < r.len()
                invariant
                    k <= r.len(),
                    forall|m: int| 0 <= m < k ==> r@[m].name@ != t@,
                ensures
                    k <= r.len(),
                    k < r.len() ==> r@[k as int].name@ == t@,
                    forall|m: int| 0 <= m < k ==> r@[m].name@ != t@,
                decreases r.len() - k,
            {
                if r[k].name == *t {
                    break;
                }
                k = k + 1;
            }
            let ghost old_r = r@;
            let ghost j1 = j + 1;
            if k < r.len() {
                assert(r@[k as int].count as nat == occ_upto(notes@, idx@, i as int, j as int, t@));
                r[k].count = r[k].count + 1;
            } else {
                r.push(TagEntry { name: t.clone(), count: 1 });
            }
            proof {
                assert forall|m: int| 0 <= m < r@.len() implies #[trigger] r@[m].count as nat
                    == occ_upto(notes@, idx@, i as int, j1, r@[m].name@) && r@[m].count > 0 by {
                    if m < old_r.len() {
                        assert(r@[m].name@ == old_r[m].name@);
                    }
                }
                assert forall|name: Seq<char>| occ_upto(notes@, idx@, i as int, j1, name) > 0 implies exists|m: int| 0 <= m < r@.len() && #[trigger] r@[m].name@ == name by {
                    if name == t@ {
                        assert(r@[k as int].name@ == name);
                    } else {
                        assert(occ_upto(notes@, idx@, i as int, j as int, name) > 0);
                        let m = choose|m: int| 0 <= m < old_r.len() && #[trigger] old_r[m].name@ == name;
                        assert(r@[m].name@ == name);
                    }
                }
                assert forall|a: int, b: int| 0 <= a < b < r@.len() implies #[trigger] r@[a].name@ != #[trigger] r@[b].name@ by {
                    if b < old_r.len() {
                        assert(r@[a].name@ == old_r[a].name@);
                        assert(r@[b].name@ == old_r[b].name@);
                    } else {
                        assert(r@[a].name@ == old_r[a].name@);
                    }
                }
            }
            j = j + 1;
        }
        proof {
            let tg = notes@[n].tags@;
            let i1 = i + 1;
            assert(tg.take(note.tags.len() as int) == tg);
            assert(idx@.take(i1).drop_last() == idx@.take(i as int));
            assert(idx@.take(i1).last() == idx@[i as int]);
            assert forall|name: Seq<char>| #[trigger] occ(notes@, idx@.take(i1), name) == occ_upto(notes@, idx@, i as int, tg.len() as int, name) by {}
        }
        i = i + 1;
    }
    proof {
        assert(idx@.take(idx.len() as int) == idx@);
    }
    r
}


/// Whether entry `a` is displayed before entry `b`.
fn entry_before(a: &TagEntry, b: &TagEntry) -> (r: bool)
    ensures
        r == facet_before(a@, b@),
{
    if a.count != b.count {
        return a.count > b.count;
    }
    let an = chars_of(a.name.as_str());
    let bn = chars_of(b.name.as_str());
    str_less(&an, &bn)
}

/// Whether an entry with view `x` is among `s`.
pub open spec fn has_entry(s: Seq<TagEntry>, x: (Seq<char>, nat)) -> bool {
    exists|m: int| 0 <= m < s.len() && #[trigger] s[m]@ == x
}

proof fn lemma_insert_keeps(s: Seq<TagEntry>, p: int, e: TagEntry, x: (Seq<char>, nat))
    requires
        0 <= p <= s.len(),
        has_entry(s, x) || e@ == x,
    ensures
        has_entry(s.insert(p, e), x),
{
    let t = s.insert(p, e);
    if e@ == x {
        assert(t[p]@ == x);
    } else {
        let m = choose|m: int| 0 <= m < s.len() && #[trigger] s[m]@ == x;
        if m < p {
            assert(t[m]@ == x);
        } else {
            assert(t[m + 1]@ == x);
        }
    }
}

proof fn lemma_insert_sorted(s: Seq<TagEntry>, p: int, e: TagEntry)
    requires
        0 <= p <= s.len(),
        forall|a: int, b: int| 0 <= a < b < s.len() ==> facet_before(#[trigger] s[a]@, #[trigger] s[b]@),
        forall|a: int| 0 <= a < p ==> !facet_before(e@, #[trigger] s[a]@),
        forall|a: int| 0 <= a < s.len() ==> e@.0 != (#[trigger] s[a]@).0,
        p < s.len() ==> facet_before(e@, s[p]@),
    ensures
        forall|a: int, b: int| 0 <= a < b < s.len() + 1 ==> facet_before(#[trigger] s.insert(p, e)[a]@, #[trigger] s.insert(p, e)[b]@),
{
    let t = s.insert(p, e);
    assert forall|a: int, b: int| 0 <= a < b < t.len() implies facet_before(#[trigger] t[a]@, #[trigger] t[b]@) by {
        if b < p {
            assert(t[a] == s[a] && t[b] == s[b]);
        } else if b == p {
            assert(t[a] == s[a]);
            lemma_before_total(e@, s[a]@);
        } else if a > p {
            assert(t[a] == s[a - 1] && t[b] == s[b - 1]);
        } else if a == p {
            assert(t[b] == s[b - 1]);
            if b - 1 > p {
                assert(facet_before(s[p]@, s[b - 1]@));
                lemma_before_trans(e@, s[p]@, s[b - 1]@);
            }
        } else {
            assert(t[a] == s[a] && t[b] == s[b - 1]);
        }
    }
}

/// The entries `v`, whose names are distinct, in display order.
fn sort_entries(v: &Vec<TagEntry>) -> (r: Vec<TagEntry>)
    requires
        forall|k: int, m: int| 0 <= k < m < v@.len() ==> #[trigger] v@[k].name@ != #[trigger] v@[m].name@,
    ensures
        r@.len() == v@.len(),
        forall|k: int| 0 <= k < v@.len() ==> has_entry(r@, #[trigger] v@[k]@),
        forall|m: int| 0 <= m < r@.len() ==> has_entry(v@, #[trigger] r@[m]@),
        forall|a: int, b: int| 0 <= a < b < r@.len() ==> facet_before(#[trigger] r@[a]@, #[trigger] r@[b]@),
{
    let mut out: Vec<TagEntry> = Vec::new();
    let mut i: usize = 0;
    while i < v.len()
        invariant
            i <= v.len(),
            out@.len() == i,
            forall|k: int, m: int| 0 <= k < m < v@.len() ==> #[trigger] v@[k].name@ != #[trigger] v@[m].name@,
            forall|k: int| 0 <= k < i ==> has_entry(out@, #[trigger] v@[k]@),
            forall|m: int| 0 <= m < out@.len() ==> has_entry(v@.take(i as int), #[trigger] out@[m]@),
            forall|a: int, b: int| 0 <= a < b < out@.len() ==> facet_before(#[trigger] out@[a]@, #[trigger] out@[b]@),
        decreases v.len() - i,
    {
        let e = TagEntry { name: v[i].name.clone(), count: v[i].count };
        let mut p: usize = 0;
        while p < out.len()
            invariant
                p <= out.len(),
                forall|a: int| 0 <= a < p ==> !facet_before(e@, #[trigger] out@[a]@),
            ensures
                p <= out.len(),
                p < out.len() ==> facet_before(e@, out@[p as int]@),
                forall|a: int| 0 <= a < p ==> !facet_before(e@, #[trigger] out@[a]@),
            decreases out.len() - p,
        {
            if entry_before(&e, &out[p]) {
                break;
            }
            p = p + 1;
        }
        let ghost old_out = out@;
        let ghost vi = v@.take(i as int);
        let ghost vi1 = v@.take(i + 1);
        proof {
            assert forall|a: int| 0 <= a < old_out.len() implies e@.0 != (#[trigger] old_out[a]@).0 by {
                let k = choose|k: int| 0 <= k < vi.len() && #[trigger] vi[k]@ == old_out[a]@;
                assert(vi[k] == v@[k]);
                assert(v@[k].name@ != v@[i as int].name@);
            }
            lemma_insert_sorted(old_out, p as int, e);
            assert forall|k: int| 0 <= k < i + 1 implies has_entry(old_out.insert(p as int, e), #[trigger] v@[k]@) by {
                lemma_insert_keeps(old_out, p as int, e, v@[k]@);
            }
            assert forall|m: int| 0 <= m < old_out.len() + 1 implies has_entry(vi1, #[trigger] old_out.insert(p as int, e)[m]@) by {
                let t = old_out.insert(p as int, e);
                if m == p {
                    assert(vi1[i as int]@ == t[m]@);
                } else {
                    let x = if m < p { old_out[m] } else { old_out[m - 1] };
                    assert(t[m] == x);
                    assert(has_entry(vi, x@));
                    let k = choose|k: int| 0 <= k < vi.len() && #[trigger] vi[k]@ == x@;
                    assert(vi1[k] == vi[k]);
                }
            }
        }
        out.insert(p, e);
        i = i + 1;
    }
    proof {
        assert(v@.take(v.len() as int) == v@);
    }
    out
}

/// The facet table of the notes at `idx`: each tag that occurs with its number of
/// occurrences, by count descending, then by name ascending.
pub fn facets_of(notes: &Vec<NoteEntry>, idx: &Vec<usize>) -> (r: Vec<TagEntry>)
    requires
        indices_in(idx@, notes@.len()),
        tag_total(notes@, idx@) <= usize::MAX,
    ensures
        is_facets(entries_view(r@), notes@, idx@),
{
    let counted = count_tags(notes, idx);
    let r = sort_entries(&counted);
    proof {
        let rv = entries_view(r@);
        assert forall|i: int| 0 <= i < rv.len() implies #[trigger] rv[i].1 == occ(notes@, idx@, rv[i].0) && rv[i].1 > 0 by {
            assert(has_entry(counted@, r@[i]@));
            let k = choose|k: int| 0 <= k < counted@.len() && #[trigger] counted@[k]@ == r@[i]@;
        }
        assert forall|name: Seq<char>| occ(notes@, idx@, name) > 0 implies exists|i: int| 0 <= i < rv.len() && #[trigger] rv[i].0 == name by {
            let k = choose|k: int| 0 <= k < counted@.len() && #[trigger] counted@[k].name@ == name;
            assert(has_entry(r@, counted@[k]@));
            let m = choose|m: int| 0 <= m < r@.len() && #[trigger] r@[m]@ == counted@[k]@;
            assert(rv[m].0 == name);
        }
        assert forall|a: int, b: int| 0 <= a < b < rv.len() implies facet_before(#[trigger] rv[a], #[trigger] rv[b]) by {
            assert(facet_before(r@[a]@, r@[b]@));
        }
    }
    r
}


/// Whether `r` is in strict display order.
pub open spec fn in_display_order(r: Seq<(Seq<char>, nat)>) -> bool {
    forall|i: int, j: int| 0 <= i < j < r.len() ==> facet_before(#[trigger] r[i], #[trigger] r[j])
}

proof fn lemma_ordered_same_members(r1: Seq<(Seq<char>, nat)>, r2: Seq<(Seq<char>, nat)>)
    requires
        in_display_order(r1),
        in_display_order(r2),
        forall|x: (Seq<char>, nat)| r1.contains(x) <==> r2.contains(x),
    ensures
        r1 == r2,
    decreases r1.len(),
{
    if r1.len() == 0 {
        if r2.len() > 0 {
            assert(r2.contains(r2[0]));
        }
        assert(r1 =~= r2);
    } else {
        assert(r1.contains(r1[0]));
        let j = choose|j: int| 0 <= j < r2.len() && r2[j] == r1[0];
        assert(r2.contains(r2[0]));
        let i = choose|i: int| 0 <= i < r1.len() && r1[i] == r2[0];
        if j > 0 {
            assert(facet_before(r2[0], r2[j]));
            if i > 0 {
                assert(facet_before(r1[0], r1[i]));
                lemma_before_total(r1[0], r2[0]);
            } else {
                lemma_str_lt_irreflexive(r1[0].0);
            }
        } else if i > 0 {
            assert(facet_before(r1[0], r1[i]));
            lemma_str_lt_irreflexive(r1[0].0);
        }
        assert(r1[0] == r2[0]);
        let t1 = r1.drop_first();
        let t2 = r2.drop_first();
        assert forall|x: (Seq<char>, nat)| t1.contains(x) <==> t2.contains(x) by {
            if t1.contains(x) {
                let a = choose|a: int| 0 <= a < t1.len() && t1[a] == x;
                assert(r1[a + 1] == x);
                assert(facet_before(r1[0], r1[a + 1]));
                lemma_str_lt_irreflexive(x.0);
                assert(r2.contains(x));
                let b = choose|b: int| 0 <= b < r2.len() && r2[b] == x;
                assert(b != 0);
                assert(t2[b - 1] == x);
            }
            if t2.contains(x) {
                let a = choose|a: int| 0 <= a < t2.len() && t2[a] == x;
                assert(r2[a + 1] == x);
                assert(facet_before(r2[0], r2[a + 1]));
                lemma_str_lt_irreflexive(x.0);
                assert(r1.contains(x));
                let b = choose|b: int| 0 <= b < r1.len() && r1[b] == x;
                assert(b != 0);
                assert(t1[b - 1] == x);
            }
        }
        lemma_ordered_same_members(t1, t2);
        assert(r1 =~= seq![r1[0]] + t1);
        assert(r2 =~= seq![r2[0]] + t2);
    }
}

/// There is at most one facet table for a set of notes.
pub proof fn lemma_facets_unique(
    r1: Seq<(Seq<char>, nat)>,
    r2: Seq<(Seq<char>, nat)>,
    notes: Seq<NoteEntry>,
    idx: Seq<usize>,
)
    requires
        is_facets(r1, notes, idx),
        is_facets(r2, notes, idx),
    ensures
        r1 == r2,
{
    assert forall|x: (Seq<char>, nat)| r1.contains(x) implies r2.contains(x) by {
        let i = choose|i: int| 0 <= i < r1.len() && r1[i] == x;
        assert(r1[i].1 == occ(notes, idx, r1[i].0) && r1[i].1 > 0);
        let j = choose|j: int| 0 <= j < r2.len() && #[trigger] r2[j].0 == x.0;
        assert(r2[j] == x);
    }
    assert forall|x: (Seq<char>, nat)| r2.contains(x) implies r1.contains(x) by {
        let i = choose|i: int| 0 <= i < r2.len() && r2[i] == x;
        assert(r2[i].1 == occ(notes, idx, r2[i].0) && r2[i].1 > 0);
        let j = choose|j: int| 0 <= j < r1.len() && #[trigger] r1[j].0 == x.0;
        assert(r1[j] == x);
    }
    lemma_ordered_same_members(r1, r2);
}

/// The facet table of the notes at `idx`.
pub open spec fn facets(notes: Seq<NoteEntry>, idx: Seq<usize>) -> Seq<(Seq<char>, nat)> {
    choose|r: Seq<(Seq<char>, nat)>| is_facets(r, notes, idx)
}

proof fn lemma_is_the_facets(r: Seq<(Seq<char>, nat)>, notes: Seq<NoteEntry>, idx: Seq<usize>)
    requires
        is_facets(r, notes, idx),
    ensures
        facets(notes, idx) == r,
{
    lemma_facets_unique(facets(notes, idx), r, notes, idx);
}

proof fn lemma_filter_in(notes: Seq<NoteEntry>, query: Seq<char>, active: Seq<Seq<char>>)
    ensures
        indices_in(filter_indices(notes, query, active), notes.len()),
        filter_indices(notes, query, active).len() <= notes.len(),
    decreases notes.len(),
{
    if notes.len() > 0 {
        lemma_filter_in(notes.drop_last(), query, active);
    }
}

proof fn lemma_restrict(notes: Seq<NoteEntry>, idx: Seq<usize>, name: Seq<char>)
    requires
        notes.len() > 0,
        indices_in(idx, (notes.len() - 1) as nat),
    ensures
        occ(notes, idx, name) == occ(notes.drop_last(), idx, name),
        tag_total(notes, idx) == tag_total(notes.drop_last(), idx),
    decreases idx.len(),
{
    if idx.len() > 0 {
        lemma_restrict(notes, idx.drop_last(), name);
        assert(idx.last() == idx[idx.len() - 1]);
    }
}

proof fn lemma_filter_le(notes: Seq<NoteEntry>, query: Seq<char>, active: Seq<Seq<char>>, name: Seq<char>)
    ensures
        occ(notes, filter_indices(notes, query, active), name) <= occ(notes, all_indices(notes.len()), name),
        tag_total(notes, filter_indices(notes, query, active)) <= tag_total(notes, all_indices(notes.len())),
    decreases notes.len(),
{
    if notes.len() > 0 {
        let m = notes.drop_last();
        let n = notes.len();
        lemma_filter_le(m, query, active, name);
        lemma_filter_in(m, query, active);
        let fm = filter_indices(m, query, active);
        let am = all_indices(m.len());
        lemma_restrict(notes, fm, name);
        lemma_restrict(notes, am, name);
        assert(all_indices(n).drop_last() =~= am);
        assert(all_indices(n).last() == (n - 1) as usize);
        assert(fm.push((n - 1) as usize).drop_last() == fm);
        assert(fm.push((n - 1) as usize).last() == (n - 1) as usize);
    }
}

/// Facet counts can only shrink under filtering: how often a tag occurs among the
/// notes that a query and the active tag filters let through is at most how often
/// it occurs among all notes.
pub proof fn lemma_filtered_counts_le_full(
    notes: Seq<NoteEntry>,
    query: Seq<char>,
    active: Seq<Seq<char>>,
    name: Seq<char>,
)
    ensures
        occ(notes, filter_indices(notes, query, active), name) <= occ(notes, all_indices(notes.len()), name),
{
    lemma_filter_le(notes, query, active, name);
}

/// Whether `all` has an entry for the tag of `e` with a count at least `e`'s.
pub open spec fn covered_by(all: Seq<(Seq<char>, nat)>, e: (Seq<char>, nat)) -> bool {
    exists|j: int| 0 <= j < all.len() && all[j].0 == e.0 && e.1 <= #[trigger] all[j].1
}

/// Facet counts can only shrink under filtering, stated over the tables: each
/// entry of the facet table of the visible notes has an entry of the same tag in
/// the table of all notes, with a count at least as large.
pub proof fn lemma_facet_tables_shrink(
    notes: Seq<NoteEntry>,
    query: Seq<char>,
    active: Seq<Seq<char>>,
    vis: Seq<(Seq<char>, nat)>,
    all: Seq<(Seq<char>, nat)>,
)
    requires
        is_facets(vis, notes, filter_indices(notes, query, active)),
        is_facets(all, notes, all_indices(notes.len())),
    ensures
        forall|i: int| 0 <= i < vis.len() ==> covered_by(all, #[trigger] vis[i]),
{
    let f = filter_indices(notes, query, active);
    let a = all_indices(notes.len());
    assert forall|i: int| 0 <= i < vis.len() implies covered_by(all, #[trigger] vis[i]) by {
        let name = vis[i].0;
        assert(vis[i].1 == occ(notes, f, name) && vis[i].1 > 0);
        lemma_filter_le(notes, query, active, name);
        assert(occ(notes, a, name) > 0);
        let j = choose|j: int| 0 <= j < all.len() && #[trigger] all[j].0 == name;
        assert(all[j].1 == occ(notes, a, all[j].0));
    }
}

/// With an empty (lower-cased) query and no active tag filter every note is visible,
/// in its own place.
pub proof fn lemma_unfiltered_identity(notes: Seq<NoteEntry>, query: Seq<char>, active: Seq<Seq<char>>)
    requires
        lower_of(query).len() == 0,
        active.len() == 0,
    ensures
        filter_indices(notes, query, active) == all_indices(notes.len()),
    decreases notes.len(),
{
    if notes.len() > 0 {
        lemma_unfiltered_identity(notes.drop_last(), query, active);
        assert(all_indices(notes.len()).drop_last() =~= all_indices((notes.len() - 1) as nat));
        assert(filter_indices(notes, query, active) =~= all_indices(notes.len()));
    } else {
        assert(all_indices(0) =~= Seq::<usize>::empty());
    }
}

/// The identity index list `0..n`.
fn identity_indices(n: usize) -> (r: Vec<usize>)
    ensures
        r@ == all_indices(n as nat),
{
    let mut r: Vec<usize> = Vec::new();
    let mut i: usize = 0;
    while i < n
        invariant
            i <= n,
            r@ == all_indices(i as nat),
        decreases n - i,
    {
        r.push(i);
        proof {
            assert(r@ =~= all_indices((i + 1) as nat));
        }
        i = i + 1;
    }
    r
}

/// The tag table over all notes: each tag with its number of occurrences, by count
/// descending, then by name ascending.
pub fn compute_tags(notes: &Vec<NoteEntry>) -> (r: Vec<TagEntry>)
    requires
        tag_total(notes@, all_indices(notes@.len())) <= usize::MAX,
    ensures
        entries_view(r@) == facets(notes@, all_indices(notes@.len())),
        is_facets(entries_view(r@), notes@, all_indices(notes@.len())),
{
    let idx = identity_indices(notes.len());
    let r = facets_of(notes, &idx);
    proof {
        lemma_is_the_facets(entries_view(r@), notes@, idx@);
    }
    r
}

/// The tag table over the notes at `idx` (the visible ones), ordered as `compute_tags`.
pub fn compute_tags_from_refs(notes: &Vec<NoteEntry>, idx: &Vec<usize>) -> (r: Vec<TagEntry>)
    requires
        indices_in(idx@, notes@.len()),
        tag_total(notes@, idx@) <= usize::MAX,
    ensures
        entries_view(r@) == facets(notes@, idx@),
        is_facets(entries_view(r@), notes@, idx@),
{
    let r = facets_of(notes, idx);
    proof {
        lemma_is_the_facets(entries_view(r@), notes@, idx@);
    }
    r
}

/// The visible notes under `query` and the active tag filters, and the facet table
/// over them.
pub fn apply_filter(notes: &Vec<NoteEntry>, query: &str, active: &Vec<String>) -> (r: (Vec<usize>, Vec<TagEntry>))
    requires
        tag_total(notes@, all_indices(notes@.len())) <= usize::MAX,
    ensures
        r.0@ == filter_indices(notes@, query@, views_of(active@)),
        entries_view(r.1@) == facets(notes@, r.0@),
        is_facets(entries_view(r.1@), notes@, r.0@),
        query@.len() == 0 && active@.len() == 0 ==> r.0@ == all_indices(notes@.len()),
{
    let idx = filter_notes(notes, query, active);
    proof {
        lemma_filter_in(notes@, query@, views_of(active@));
        lemma_filter_le(notes@, query@, views_of(active@), Seq::empty());
    }
    let f = compute_tags_from_refs(notes, &idx);
    proof {
        if query@.len() == 0 && active@.len() == 0 {
            lemma_unfiltered_identity(notes@, query@, views_of(active@));
        }
    }
    (idx, f)
}

} // verus!
