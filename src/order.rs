use vstd::prelude::*;

verus! {

broadcast use vstd::seq_lib::group_to_multiset_ensures;

/// Lexicographic order on character sequences, comparing code points.
pub open spec fn lex_le(a: Seq<char>, b: Seq<char>) -> bool
    decreases a.len(),
{
    if a.len() == 0 {
        true
    } else if b.len() == 0 {
        false
    } else if a[0] < b[0] {
        true
    } else if a[0] == b[0] {
        lex_le(a.drop_first(), b.drop_first())
    } else {
        false
    }
}

/// Every word precedes, or equals, every word after it.
pub open spec fn sorted(s: Seq<Seq<char>>) -> bool {
    forall|i: int, j: int| 0 <= i < j < s.len() ==> lex_le(#[trigger] s[i], #[trigger] s[j])
}

/// The character sequences held by a sequence of strings.
pub open spec fn views(v: Seq<String>) -> Seq<Seq<char>> {
    v.map_values(|s: String| s@)
}

pub proof fn lemma_lex_total(a: Seq<char>, b: Seq<char>)
    ensures
        lex_le(a, b) || lex_le(b, a),
    decreases a.len(),
{
    if a.len() > 0 && b.len() > 0 && a[0] == b[0] {
        lemma_lex_total(a.drop_first(), b.drop_first());
    }
}

pub proof fn lemma_lex_trans(a: Seq<char>, b: Seq<char>, c: Seq<char>)
    requires
        lex_le(a, b),
        lex_le(b, c),
    ensures
        lex_le(a, c),
    decreases a.len(),
{
    if a.len() > 0 && b.len() > 0 && c.len() > 0 && a[0] == b[0] && b[0] == c[0] {
        lemma_lex_trans(a.drop_first(), b.drop_first(), c.drop_first());
    }
}

pub proof fn lemma_lex_refl(a: Seq<char>)
    ensures
        lex_le(a, a),
    decreases a.len(),
{
    if a.len() > 0 {
        lemma_lex_refl(a.drop_first());
    }
}

/// The characters of `s`, in order.
pub fn chars_of(s: &str) -> (r: Vec<char>)
    ensures
        r@ == s@,
{
    let mut r: Vec<char> = Vec::new();
    for c in it: s.chars()
        invariant
            r@ == it.seq().take(it.index()),
    {
        r.push(c);
    }
    assert(r@ =~= s@);
    r
}

/// Compares two character sequences in lexicographic order.
pub fn chars_le(a: &Vec<char>, b: &Vec<char>) -> (r: bool)
    ensures
        r == lex_le(a@, b@),
{
    let mut i: usize = 0;
    assert(a@.skip(0) =~= a@ && b@.skip(0) =~= b@);
    while i < a.len() && i < b.len() && a[i] == b[i]
        invariant
            i <= a.len(),
            i <= b.len(),
            lex_le(a@, b@) == lex_le(a@.skip(i as int), b@.skip(i as int)),
        decreases a.len() - i,
    {
        assert(a@.skip(i as int).drop_first() =~= a@.skip(i + 1));
        assert(b@.skip(i as int).drop_first() =~= b@.skip(i + 1));
        i = i + 1;
    }
    if i == a.len() {
        true
    } else if i == b.len() {
        false
    } else {
        a[i] < b[i]
    }
}

/// Compares two strings in lexicographic order of their characters.
pub fn str_le(a: &str, b: &str) -> (r: bool)
    ensures
        r == lex_le(a@, b@),
{
    let ca = chars_of(a);
    let cb = chars_of(b);
    chars_le(&ca, &cb)
}

/// Index of a least word of `v`.
fn least_index(v: &Vec<String>) -> (k: usize)
    requires
        v.len() > 0,
    ensures
        k < v.len(),
        forall|j: int| 0 <= j < v.len() ==> lex_le(v@[k as int]@, #[trigger] v@[j]@),
{
    let mut k: usize = 0;
    let mut j: usize = 1;
    proof {
        lemma_lex_refl(v@[0]@);
    }
    while j < v.len()
        invariant
            1 <= j <= v.len(),
            k < j,
            forall|m: int| 0 <= m < j ==> lex_le(v@[k as int]@, #[trigger] v@[m]@),
        decreases v.len() - j,
    {
        if !str_le(v[k].as_str(), v[j].as_str()) {
            proof {
                let (wk, wj) = (v@[k as int]@, v@[j as int]@);
                lemma_lex_total(wk, wj);
                assert forall|m: int| 0 <= m < j implies lex_le(wj, #[trigger] v@[m]@) by {
                    lemma_lex_trans(wj, wk, v@[m]@);
                }
                lemma_lex_refl(wj);
            }
            k = j;
        }
        j = j + 1;
    }
    k
}

/// Rearranges `v` so that its words stand in lexicographic order.
pub fn sort_words(v: Vec<String>) -> (r: Vec<String>)
    ensures
        views(r@).to_multiset() == views(v@).to_multiset(),
        sorted(views(r@)),
{
    let mut work = v;
    let mut out: Vec<String> = Vec::new();
    while work.len() > 0
        invariant
            views(out@).to_multiset().add(views(work@).to_multiset()) == views(v@).to_multiset(),
            sorted(views(out@)),
            forall|i: int, j: int|
                0 <= i < out.len() && 0 <= j < work.len() ==> lex_le(
                    #[trigger] out@[i]@,
                    #[trigger] work@[j]@,
                ),
        decreases work.len(),
    {
        let k = least_index(&work);
        let ghost before = work@;
        let ghost out_before = out@;
        let w = work.remove(k);
        proof {
            assert(views(work@) =~= views(before).remove(k as int));
            assert(views(before)[k as int] == w@);
        }
        out.push(w);
        proof {
            assert(views(out@) =~= views(out_before).push(w@));
            assert forall|j: int| 0 <= j < work.len() implies lex_le(w@, #[trigger] work@[j]@) by {
                if j < k {
                    assert(work@[j] == before[j]);
                } else {
                    assert(work@[j] == before[j + 1]);
                }
            }
            assert forall|i: int, j: int|
                0 <= i < out.len() && 0 <= j < work.len() implies lex_le(
                    #[trigger] out@[i]@,
                    #[trigger] work@[j]@,
                ) by {
                if i < out.len() - 1 {
                    if j < k {
                        assert(work@[j] == before[j]);
                    } else {
                        assert(work@[j] == before[j + 1]);
                    }
                    assert(out@[i] == out_before[i]);
                }
            }
            assert forall|i: int, j: int| 0 <= i < j < views(out@).len() implies lex_le(
                #[trigger] views(out@)[i],
                #[trigger] views(out@)[j],
            ) by {
                if j < out.len() - 1 {
                    assert(views(out_before)[i] == views(out@)[i]);
                    assert(views(out_before)[j] == views(out@)[j]);
                } else {
                    assert(before[k as int] == w);
                    assert(out_before[i] == out@[i]);
                }
            }
        }
    }
    assert(views(work@) =~= Seq::<Seq<char>>::empty());
    out
}

} // verus!
