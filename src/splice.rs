//! Placing the index chapter into the book's top-level table of contents.
use vstd::prelude::*;

verus! {

/// One top-level entry of the book's table of contents; `C` is the host's
/// chapter type.
pub enum TreeEntry<C> {
    PartLabel(String),
    Chapter(C),
    Separator,
}

/// The marker that, inside a part label, asks for the index to follow it.
pub open spec fn anchor_spec() -> Seq<char> {
    seq!['{', '#', 'r', 'f', 'c', '-', 'i', 'n', 'd', 'e', 'x', '}']
}

/// `m` occurs in `s` at position `p`.
pub open spec fn occurs_at(s: Seq<char>, m: Seq<char>, p: int) -> bool {
    0 <= p && p + m.len() <= s.len() && s.subrange(p, p + m.len()) == m
}

/// The first position at or after `p` where the anchor marker occurs in `s`,
/// or -1.
pub open spec fn anchor_from(s: Seq<char>, p: int) -> int
    decreases s.len() - p,
{
    if p < 0 || p + anchor_spec().len() > s.len() {
        -1
    } else if occurs_at(s, anchor_spec(), p) {
        p
    } else {
        anchor_from(s, p + 1)
    }
}

/// The first position of the anchor marker in `s`, or -1.
pub open spec fn anchor_pos(s: Seq<char>) -> int {
    anchor_from(s, 0)
}

/// The entry is a part label that holds the anchor marker.
pub open spec fn is_anchor<C>(e: TreeEntry<C>) -> bool {
    e matches TreeEntry::PartLabel(s) && anchor_pos(s@) >= 0
}

/// The index of the first anchor entry at or after `i`, or -1.
pub open spec fn anchor_entry_from<C>(v: Seq<TreeEntry<C>>, i: int) -> int
    decreases v.len() - i,
{
    if i < 0 || i >= v.len() {
        -1
    } else if is_anchor(v[i]) {
        i
    } else {
        anchor_entry_from(v, i + 1)
    }
}

/// The index of the first anchor entry of `v`, or -1.
pub open spec fn anchor_entry<C>(v: Seq<TreeEntry<C>>) -> int {
    anchor_entry_from(v, 0)
}

proof fn lemma_anchor_from(s: Seq<char>, p: int)
    requires
        0 <= p,
    ensures
        anchor_from(s, p) == -1 || (p <= anchor_from(s, p) && occurs_at(
            s,
            anchor_spec(),
            anchor_from(s, p),
        )),
        forall|q: int| p <= q && (anchor_from(s, p) == -1 || q < anchor_from(s, p)) ==> !occurs_at(s, anchor_spec(), q),
    decreases s.len() - p,
{
    if p + anchor_spec().len() <= s.len() && !occurs_at(s, anchor_spec(), p) {
        lemma_anchor_from(s, p + 1);
    }
}

proof fn lemma_anchor_entry_from<C>(v: Seq<TreeEntry<C>>, i: int)
    requires
        0 <= i,
    ensures
        anchor_entry_from(v, i) == -1 || (i <= anchor_entry_from(v, i) < v.len() && is_anchor(
            v[anchor_entry_from(v, i)],
        )),
        forall|j: int|
            i <= j < v.len() && (anchor_entry_from(v, i) == -1 || j < anchor_entry_from(v, i))
                ==> !is_anchor(#[trigger] v[j]),
    decreases v.len() - i,
{
    if i < v.len() && !is_anchor(v[i]) {
        lemma_anchor_entry_from(v, i + 1);
    }
}

/// Finds the first position of the anchor marker in `s`.
pub fn find_anchor(s: &str) -> (r: Option<usize>)
    ensures
        r matches Some(p) ==> p == anchor_pos(s@) && p <= s@.len(),
        r is None ==> anchor_pos(s@) == -1,
{
    let m: &str = "{#rfc-index}";
    proof {
        reveal_strlit("{#rfc-index}");
        assert(m@ =~= anchor_spec());
    }
    let n = s.unicode_len();
    let ml = m.unicode_len();
    if ml > n {
        return None;
    }
    let mut p: usize = 0;
    while p <= n - ml
        invariant
            n == s@.len(),
            ml == m@.len(),
            m@ == anchor_spec(),
            ml <= n,
            p <= n - ml + 1,
            anchor_pos(s@) == anchor_from(s@, p as int),
        decreases n - ml + 1 - p,
    {
        let mut j: usize = 0;
        while j < ml && s.get_char(p + j) == m.get_char(j)
            invariant
                n == s@.len(),
                ml == m@.len(),
                p + ml <= n,
                j <= ml,
                forall|k: int| 0 <= k < j ==> s@[p + k] == m@[k],
            decreases ml - j,
        {
            j = j + 1;
        }
        if j == ml {
            assert(s@.subrange(p as int, p + ml) =~= m@);
            return Some(p);
        }
        assert(!occurs_at(s@, anchor_spec(), p as int)) by {
            if s@.subrange(p as int, p + ml) == m@ {
                assert(s@[p + j as int] == s@.subrange(p as int, p + ml)[j as int]);
            }
        }
        p = p + 1;
    }
    None
}

/// Puts `index` after the first part label that holds the anchor marker,
/// cutting that label at the marker's start; without such a label, appends
/// `index` at the end. No other entry changes.
pub fn splice_index<C>(entries: &mut Vec<TreeEntry<C>>, index: C)
    ensures
        ({
            let o = old(entries)@;
            let f = final(entries)@;
            let k = anchor_entry(o);
            if k == -1 {
                f == o.push(TreeEntry::Chapter(index))
            } else {
                &&& 0 <= k < o.len()
                &&& f.len() == o.len() + 1
                &&& forall|j: int| 0 <= j < k ==> f[j] == o[j]
                &&& (f[k] matches TreeEntry::PartLabel(t) && o[k] matches TreeEntry::PartLabel(s)
                    && t@ == s@.subrange(0, anchor_pos(s@)))
                &&& f[k + 1] == TreeEntry::Chapter(index)
                &&& forall|j: int| k < j < o.len() ==> f[j + 1] == o[j]
            }
        }),
{
    let ghost o = entries@;
    let mut i: usize = 0;
    while i < entries.len()
        invariant
            entries@ == o,
            old(entries)@ == o,
            i <= o.len(),
            anchor_entry(o) == anchor_entry_from(o, i as int),
        decreases o.len() - i,
    {
        let found = match &entries[i] {
            TreeEntry::PartLabel(s) => match find_anchor(s.as_str()) {
                Some(p) => Some(s.as_str().substring_char(0, p).to_owned()),
                None => None,
            },
            _ => None,
        };
        proof {
            lemma_anchor_entry_from(o, i as int);
            lemma_anchor_entry_from(o, i + 1);
        }
        assert(found is Some <==> is_anchor(o[i as int]));
        match found {
            Some(t) => {
                let ghost k = i as int;
                assert(anchor_entry(o) == k);
                assert(o[k] matches TreeEntry::PartLabel(s) && t@ == s@.subrange(0, anchor_pos(s@)));
                let _ = entries.remove(i);
                entries.insert(i, TreeEntry::PartLabel(t));
                entries.insert(i + 1, TreeEntry::Chapter(index));
                let ghost f = entries@;
                assert(forall|j: int| 0 <= j < k ==> f[j] == o[j]);
                assert(forall|j: int| k < j < o.len() ==> f[j + 1] == o[j]);
                return;
            },
            None => {},
        }
        i = i + 1;
    }
    entries.push(TreeEntry::Chapter(index));
}

/// Once spliced, the label that held the anchor marker no longer holds it.
pub proof fn lemma_anchor_consumed(s: Seq<char>)
    requires
        anchor_pos(s) >= 0,
    ensures
        anchor_pos(s.subrange(0, anchor_pos(s))) == -1,
{
    let k = anchor_pos(s);
    let t = s.subrange(0, k);
    lemma_anchor_from(s, 0);
    lemma_anchor_from(t, 0);
    if anchor_pos(t) != -1 {
        let q = anchor_pos(t);
        assert(t.subrange(q, q + anchor_spec().len()) =~= s.subrange(q, q + anchor_spec().len()));
        assert(occurs_at(s, anchor_spec(), q));
    }
}

} // verus!
