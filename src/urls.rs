use vstd::prelude::*;
use vstd::relations::sorted_by;

verus! {

/// The texts of a list of strings.
pub open spec fn texts(v: Seq<String>) -> Seq<Seq<char>> {
    v.map_values(|s: String| s@)
}

/// Order of strings by their characters' code points, shorter first on a common prefix.
/// For valid UTF-8 this is the order of the bytes, which is how `str` compares.
pub open spec fn lex_le(a: Seq<char>, b: Seq<char>) -> bool
    decreases a.len(),
{
    if a.len() == 0 {
        true
    } else if b.len() == 0 {
        false
    } else if a[0] != b[0] {
        (a[0] as u32) < (b[0] as u32)
    } else {
        lex_le(a.drop_first(), b.drop_first())
    }
}

/// A list of texts in ascending order without repeats.
pub open spec fn sorted_unique(s: Seq<Seq<char>>) -> bool {
    sorted_by(s, |a: Seq<char>, b: Seq<char>| lex_le(a, b)) && s.no_duplicates()
}

/// Relies on `slice::sort`: a permutation of the strings in ascending order of `str`'s `Ord`.
#[verifier::external_body]
fn sort_strings(v: &mut Vec<String>)
    ensures
        texts(final(v)@).to_multiset() == texts(old(v)@).to_multiset(),
        sorted_by(texts(final(v)@), |a: Seq<char>, b: Seq<char>| lex_le(a, b)),
{
    v.sort();
}

/// Whether `u` is one of the strings of `v`.
pub fn contains_text(v: &Vec<String>, u: &String) -> (r: bool)
    ensures
        r == texts(v@).contains(u@),
{
    let mut i: usize = 0;
    while i < v.len()
        invariant
            i <= v@.len(),
            forall|j: int| 0 <= j < i ==> v@[j]@ != u@,
        decreases v.len() - i,
    {
        if v[i] == *u {
            assert(texts(v@)[i as int] == u@);
            return true;
        }
        i = i + 1;
    }
    assert forall|j: int| 0 <= j < texts(v@).len() implies texts(v@)[j] != u@ by {
        assert(v@[j]@ != u@);
    }
    false
}

/// A list with the same multiset as a list without repeats has no repeats either.
pub proof fn lemma_same_multiset_unique(s: Seq<Seq<char>>, t: Seq<Seq<char>>)
    requires
        s.no_duplicates(),
        s.to_multiset() == t.to_multiset(),
    ensures
        t.no_duplicates(),
        forall|x: Seq<char>| s.contains(x) <==> t.contains(x),
{
    broadcast use vstd::seq_lib::to_multiset_contains;
    s.lemma_multiset_has_no_duplicates();
    t.lemma_multiset_has_no_duplicates_conv();
    assert forall|x: Seq<char>| s.contains(x) <==> t.contains(x) by {
        vstd::seq_lib::to_multiset_contains(s, x);
        vstd::seq_lib::to_multiset_contains(t, x);
    }
}

/// The strings of `v`, each once, in ascending order.
pub fn sorted_unique_urls(v: &Vec<String>) -> (r: Vec<String>)
    ensures
        sorted_unique(texts(r@)),
        forall|x: Seq<char>| texts(r@).contains(x) <==> texts(v@).contains(x),
{
    let mut out: Vec<String> = Vec::new();
    let mut i: usize = 0;
    while i < v.len()
        invariant
            i <= v@.len(),
            texts(out@).no_duplicates(),
            forall|x: Seq<char>| texts(out@).contains(x) <==> texts(v@.subrange(0, i as int)).contains(x),
        decreases v.len() - i,
    {
        let ghost before = texts(out@);
        let ghost pre = texts(v@.subrange(0, i as int));
        assert(texts(v@.subrange(0, i as int + 1)) =~= pre.push(v@[i as int]@));
        let found = contains_text(&out, &v[i]);
        if !found {
            out.push(v[i].clone());
            assert(texts(out@) =~= before.push(v@[i as int]@));
        }
        assert forall|x: Seq<char>| texts(out@).contains(x) <==> pre.push(v@[i as int]@).contains(x) by {
            let p2 = pre.push(v@[i as int]@);
            if p2.contains(x) {
                let k = choose|k: int| 0 <= k < p2.len() && p2[k] == x;
                if k < pre.len() {
                    assert(pre[k] == x);
                    assert(before.contains(x));
                    let m = choose|m: int| 0 <= m < before.len() && before[m] == x;
                    assert(texts(out@)[m] == x);
                } else if found {
                    assert(before.contains(x));
                } else {
                    assert(texts(out@)[before.len() as int] == x);
                }
            }
            if texts(out@).contains(x) {
                let k = choose|k: int| 0 <= k < texts(out@).len() && texts(out@)[k] == x;
                if k < before.len() {
                    assert(before[k] == x);
                    assert(before.contains(x));
                    assert(pre.contains(x));
                    let m = choose|m: int| 0 <= m < pre.len() && pre[m] == x;
                    assert(p2[m] == x);
                } else {
                    assert(p2[pre.len() as int] == x);
                }
            }
        }
        i = i + 1;
    }
    assert(v@.subrange(0, v@.len() as int) =~= v@);
    let ghost unsorted = texts(out@);
    sort_strings(&mut out);
    proof {
        lemma_same_multiset_unique(unsorted, texts(out@));
    }
    out
}

} // verus!
