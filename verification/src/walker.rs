//! Deterministic directory order: the rebuild and import pipelines
//! process a directory's children sorted lexicographically by name, so
//! periods are visited in calendar order. The caller lists a
//! directory's entry names; [`list_sorted`] puts them in order.

use vstd::prelude::*;
use crate::strnum::{lemma_lex_total, lemma_lex_trans, lex_le, str_lex_le};
use vstd::seq_lib::{to_multiset_build, to_multiset_insert};

verus! {

/// The names are in lexicographic order.
pub open spec fn sorted_names(s: Seq<Seq<char>>) -> bool {
    forall|i: int, j: int| 0 <= i < j < s.len() ==> lex_le(#[trigger] s[i], #[trigger] s[j])
}

/// Sorts a directory's entry names lexicographically (by code point).
/// The result holds exactly the given names.
pub fn list_sorted(names: &Vec<String>) -> (r: Vec<String>)
    ensures
        sorted_names(r.deep_view()),
        r.deep_view().to_multiset() == names.deep_view().to_multiset(),
{
    let ghost ndv = names.deep_view();
    let mut out: Vec<String> = Vec::new();
    let mut i: usize = 0;
    proof {
        assert(out.deep_view() =~= ndv.take(0));
    }
    while i < names.len()
        invariant
            0 <= i <= names@.len(),
            ndv == names.deep_view(),
            ndv.len() == names@.len(),
            sorted_names(out.deep_view()),
            out.deep_view().to_multiset() == ndv.take(i as int).to_multiset(),
        decreases names@.len() - i,
    {
        let x = names[i].clone();
        let ghost xv = x@;
        proof {
            assert(xv == ndv[i as int]);
        }
        let mut j: usize = 0;
        while j < out.len() && str_lex_le(&out[j], x.as_str())
            invariant
                0 <= j <= out@.len(),
                out.deep_view().len() == out@.len(),
                xv == x@,
                forall|k: int| 0 <= k < j ==> lex_le(#[trigger] out.deep_view()[k], xv),
            decreases out@.len() - j,
        {
            j = j + 1;
        }
        let ghost odv = out.deep_view();
        let ghost jj = j as int;
        proof {
            if jj < odv.len() {
                assert(!lex_le(odv[jj], xv));
                lemma_lex_total(odv[jj], xv);
            }
        }
        out.insert(j, x);
        proof {
            assert(out.deep_view() =~= odv.insert(jj, xv));
            let new = out.deep_view();
            assert forall|a: int, b: int| 0 <= a < b < new.len() implies lex_le(
                #[trigger] new[a],
                #[trigger] new[b],
            ) by {
                if a < jj && b < jj {
                    assert(new[a] == odv[a] && new[b] == odv[b]);
                } else if a < jj && b == jj {
                    assert(new[a] == odv[a] && new[b] == xv);
                } else if a < jj && b > jj {
                    assert(new[a] == odv[a] && new[b] == odv[b - 1]);
                } else if a == jj && b > jj {
                    assert(new[a] == xv && new[b] == odv[b - 1]);
                    if jj < odv.len() {
                        assert(lex_le(xv, odv[jj]));
                        if b - 1 > jj {
                            assert(lex_le(odv[jj], odv[b - 1]));
                            lemma_lex_trans(xv, odv[jj], odv[b - 1]);
                        }
                    }
                } else {
                    assert(a > jj && b > jj);
                    assert(new[a] == odv[a - 1] && new[b] == odv[b - 1]);
                }
            }
            to_multiset_insert(odv, jj, xv);
            assert(ndv.take(i as int + 1) =~= ndv.take(i as int).push(ndv[i as int]));
            to_multiset_build(ndv.take(i as int), ndv[i as int]);
        }
        i = i + 1;
    }
    proof {
        assert(ndv.take(ndv.len() as int) =~= ndv);
    }
    out
}

} // verus!
