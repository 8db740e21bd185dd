//! Ordering the stored sessions for the sidebar listing: most recently
//! modified first, ties broken deterministically by name.

use vstd::multiset::Multiset;
use vstd::prelude::*;
use vstd::seq_lib::{to_multiset_build, to_multiset_insert};

verus! {

/// One stored session as the listing sees it: its name and its
/// last-modified time.
pub struct ConvEntry {
    pub name: String,
    pub mtime: i64,
}

/// Lexicographic order on names.
pub open spec fn lex_leq(a: Seq<char>, b: Seq<char>) -> bool
    decreases a.len(),
{
    if a.len() == 0 {
        true
    } else if b.len() == 0 {
        false
    } else if a[0] != b[0] {
        a[0] < b[0]
    } else {
        lex_leq(a.drop_first(), b.drop_first())
    }
}

/// The listing order: `a` stands no later than `b` when it is newer, or
/// equally new and no greater by name.
pub open spec fn entry_leq(a: ConvEntry, b: ConvEntry) -> bool {
    a.mtime > b.mtime || (a.mtime == b.mtime && lex_leq(a.name@, b.name@))
}

/// Listing order, descending by modification time.
pub open spec fn listing_sorted(s: Seq<ConvEntry>) -> bool {
    forall|i: int, j: int| 0 <= i < j < s.len() ==> entry_leq(#[trigger] s[i], #[trigger] s[j])
}

/// Any two names are ordered one way or the other.
proof fn lemma_lex_total(a: Seq<char>, b: Seq<char>)
    ensures
        lex_leq(a, b) || lex_leq(b, a),
    decreases a.len(),
{
    if a.len() == 0 || b.len() == 0 {
    } else if a[0] != b[0] {
    } else {
        lemma_lex_total(a.drop_first(), b.drop_first());
    }
}

/// Name order is transitive.
proof fn lemma_lex_trans(a: Seq<char>, b: Seq<char>, c: Seq<char>)
    requires
        lex_leq(a, b),
        lex_leq(b, c),
    ensures
        lex_leq(a, c),
    decreases a.len(),
{
    if a.len() == 0 {
    } else if b.len() == 0 {
    } else if c.len() == 0 {
    } else {
        if a[0] == b[0] && b[0] == c[0] {
            lemma_lex_trans(a.drop_first(), b.drop_first(), c.drop_first());
        }
    }
}

/// Any two entries are ordered one way or the other.
proof fn lemma_entry_total(a: ConvEntry, b: ConvEntry)
    ensures
        entry_leq(a, b) || entry_leq(b, a),
{
    lemma_lex_total(a.name@, b.name@);
}

/// The listing order is transitive.
proof fn lemma_entry_trans(a: ConvEntry, b: ConvEntry, c: ConvEntry)
    requires
        entry_leq(a, b),
        entry_leq(b, c),
    ensures
        entry_leq(a, c),
{
    if a.mtime == b.mtime && b.mtime == c.mtime {
        lemma_lex_trans(a.name@, b.name@, c.name@);
    }
}

/// Whether `a`'s name comes no later than `b`'s.
fn lex_leq_exec(a: &String, b: &String) -> (r: bool)
    ensures
        r == lex_leq(a@, b@),
{
    let av = crate::text::chars_of(a.as_str());
    let bv = crate::text::chars_of(b.as_str());
    let mut i: usize = 0;
    proof {
        assert(a@.skip(0) =~= a@);
        assert(b@.skip(0) =~= b@);
    }
    while i < av.len() && i < bv.len() && av[i] == bv[i]
        invariant
            i <= av@.len(),
            i <= bv@.len(),
            av@ == a@,
            bv@ == b@,
            lex_leq(a@, b@) == lex_leq(a@.skip(i as int), b@.skip(i as int)),
        decreases av@.len() - i,
    {
        proof {
            let sa = a@.skip(i as int);
            let sb = b@.skip(i as int);
            assert(sa[0] == a@[i as int]);
            assert(sb[0] == b@[i as int]);
            assert(sa.drop_first() =~= a@.skip(i as int + 1));
            assert(sb.drop_first() =~= b@.skip(i as int + 1));
        }
        i = i + 1;
    }
    proof {
        let sa = a@.skip(i as int);
        let sb = b@.skip(i as int);
        if i < av.len() {
            assert(sa[0] == a@[i as int]);
        }
        if i < bv.len() {
            assert(sb[0] == b@[i as int]);
        }
    }
    if i >= av.len() {
        true
    } else if i >= bv.len() {
        false
    } else {
        av[i] < bv[i]
    }
}

/// Whether `a` stands no later than `b` in the listing.
fn entry_leq_exec(a: &ConvEntry, b: &ConvEntry) -> (r: bool)
    ensures
        r == entry_leq(*a, *b),
{
    if a.mtime > b.mtime {
        true
    } else if a.mtime == b.mtime {
        lex_leq_exec(&a.name, &b.name)
    } else {
        false
    }
}

/// The index before which `e` belongs in an already ordered listing.
fn find_pos(r: &Vec<ConvEntry>, e: &ConvEntry) -> (pos: usize)
    ensures
        pos <= r@.len(),
        forall|q: int| 0 <= q < pos ==> entry_leq(#[trigger] r@[q], *e),
        pos < r@.len() ==> !entry_leq(r@[pos as int], *e),
{
    let mut pos: usize = 0;
    while pos < r.len()
        invariant
            pos <= r@.len(),
            forall|q: int| 0 <= q < pos ==> entry_leq(#[trigger] r@[q], *e),
        decreases r@.len() - pos,
    {
        if !entry_leq_exec(&r[pos], e) {
            return pos;
        }
        pos = pos + 1;
    }
    pos
}

/// Orders stored sessions for the listing: most recently modified first;
/// equal times fall back to name order, so the listing is deterministic.
/// The result holds exactly the entries given, rearranged.
pub fn order_conversations(entries: Vec<ConvEntry>) -> (r: Vec<ConvEntry>)
    ensures
        listing_sorted(r@),
        r@.to_multiset() == entries@.to_multiset(),
{
    let mut r: Vec<ConvEntry> = Vec::new();
    let mut i: usize = 0;
    proof {
        assert(r@ =~= Seq::<ConvEntry>::empty());
        assert(entries@.take(0) =~= Seq::<ConvEntry>::empty());
        assert(r@.to_multiset() =~= entries@.take(0).to_multiset());
    }
    while i < entries.len()
        invariant
            i <= entries@.len(),
            listing_sorted(r@),
            r@.to_multiset() == entries@.take(i as int).to_multiset(),
        decreases entries@.len() - i,
    {
        let e = entries[i].clone_entry();
        let ghost ev = entries@[i as int];
        let ghost r0 = r@;
        let pos = find_pos(&r, &e);
        proof {
            if pos < r0.len() {
                lemma_entry_total(r0[pos as int], ev);
                assert(entry_leq(ev, r0[pos as int]));
            }
        }
        r.insert(pos, e);
        proof {
            let p = pos as int;
            assert forall|x: int, y: int| 0 <= x < y < r@.len() implies entry_leq(
                #[trigger] r@[x],
                #[trigger] r@[y],
            ) by {
                if y < p {
                    assert(r@[x] == r0[x] && r@[y] == r0[y]);
                } else if x > p {
                    assert(r@[x] == r0[x - 1] && r@[y] == r0[y - 1]);
                } else if x == p {
                    assert(r@[x] == ev && r@[y] == r0[y - 1]);
                    if y - 1 > p {
                        lemma_entry_trans(ev, r0[p], r0[y - 1]);
                    }
                } else if y == p {
                    assert(r@[x] == r0[x] && r@[y] == ev);
                } else {
                    assert(x < p && y > p);
                    assert(r@[x] == r0[x] && r@[y] == r0[y - 1]);
                }
            }
            to_multiset_insert(r0, p, ev);
            to_multiset_build(entries@.take(i as int), ev);
            assert(entries@.take(i as int).push(ev) =~= entries@.take(i as int + 1));
        }
        i = i + 1;
    }
    proof {
        assert(entries@.take(entries@.len() as int) =~= entries@);
    }
    r
}

impl ConvEntry {
    /// A copy of this entry.
    pub fn clone_entry(&self) -> (r: ConvEntry)
        ensures
            r == *self,
    {
        ConvEntry { name: self.name.clone(), mtime: self.mtime }
    }
}

/// Listing order: any ordered listing that holds exactly three entries with
/// distinct modification times `a.mtime < b.mtime < c.mtime` is the sequence
/// `[c, b, a]` — most recently modified first. With `order_conversations`'s
/// own contract this pins the listing of three such files completely.
pub proof fn lemma_three_distinct_times(s: Seq<ConvEntry>, a: ConvEntry, b: ConvEntry, c: ConvEntry)
    requires
        listing_sorted(s),
        s.to_multiset() == seq![a, b, c].to_multiset(),
        a.mtime < b.mtime,
        b.mtime < c.mtime,
    ensures
        s == seq![c, b, a],
{
    broadcast use vstd::seq_lib::group_to_multiset_ensures;
    broadcast use vstd::multiset::group_multiset_axioms;

    let abc = seq![a, b, c];
    assert(abc =~= Seq::<ConvEntry>::empty().push(a).push(b).push(c));
    to_multiset_build(Seq::<ConvEntry>::empty().push(a).push(b), c);
    to_multiset_build(Seq::<ConvEntry>::empty().push(a), b);
    to_multiset_build(Seq::<ConvEntry>::empty(), a);
    assert(Seq::<ConvEntry>::empty().to_multiset() =~= Multiset::<ConvEntry>::empty());
    assert(abc.to_multiset().count(a) == 1);
    assert(abc.to_multiset().count(b) == 1);
    assert(abc.to_multiset().count(c) == 1);
    assert(abc.len() == abc.to_multiset().len());
    assert(s.len() == s.to_multiset().len());
    assert(s.len() == 3);
    assert forall|i: int| 0 <= i < 3 implies s[i] == a || s[i] == b || s[i] == c by {
        assert(s.contains(s[i]));
        assert(s.to_multiset().count(s[i]) > 0);
        assert(abc.contains(s[i]));
        let j = choose|j: int| 0 <= j < 3 && abc[j] == s[i];
        assert(abc[0] == a && abc[1] == b && abc[2] == c);
    }
    assert(s.contains(c)) by {
        assert(abc.contains(c));
        assert(s.to_multiset().count(c) > 0);
    }
    let jc = choose|j: int| 0 <= j < s.len() && s[j] == c;
    if jc != 0 {
        assert(entry_leq(s[0], c));
        assert(false);
    }
    assert(s[0] == c);
    assert(s.to_multiset().count(c) == 1);
    assert forall|i: int| 1 <= i < 3 implies s[i] != c by {
        if s[i] == c {
            let s1 = s.remove(0);
            assert(s1.to_multiset() == s.to_multiset().remove(c));
            assert(s1[i - 1] == c);
            assert(s1.contains(c));
            assert(s1.to_multiset().count(c) > 0);
        }
    }
    assert(s.contains(b)) by {
        assert(abc.contains(b));
        assert(s.to_multiset().count(b) > 0);
    }
    let jb = choose|j: int| 0 <= j < s.len() && s[j] == b;
    assert(jb != 0);
    if jb == 2 {
        assert(s[1] == a);
        assert(entry_leq(s[1], s[2]));
        assert(false);
    }
    assert(s[1] == b);
    assert(s[2] == a);
    assert(s =~= seq![c, b, a]);
}

} // verus!
