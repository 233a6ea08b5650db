//! Facts about lists.

use vstd::prelude::*;

verus! {

/// What is left of a list once it was sifted is what was in it and passes.
pub proof fn lemma_sifted<A>(list: Seq<A>, pass: spec_fn(A) -> bool, x: A)
    ensures
        list.filter(pass).contains(x) <==> list.contains(x) && pass(x),
    decreases list.len(),
{
    reveal(Seq::filter);
    if list.len() > 0 {
        let rest = list.drop_last();
        let last = list.last();
        lemma_sifted(rest, pass, x);
        lemma_pushed(rest, last, x);
        lemma_pushed(rest.filter(pass), last, x);
        assert(list =~= rest.push(last));
    }
}

/// A list with one more at its end has what it had, and that one.
pub proof fn lemma_pushed<A>(list: Seq<A>, last: A, x: A)
    ensures
        list.push(last).contains(x) <==> list.contains(x) || x == last,
{
    if list.contains(x) {
        let i = choose|i: int| 0 <= i < list.len() && list[i] == x;
        assert(list.push(last)[i] == x);
    }
    assert(list.push(last)[list.len() as int] == last);
}

/// Two lists, one after the other, have what either has.
pub proof fn lemma_joined<A>(a: Seq<A>, b: Seq<A>, x: A)
    ensures
        (a + b).contains(x) <==> a.contains(x) || b.contains(x),
{
    if a.contains(x) {
        let i = choose|i: int| 0 <= i < a.len() && a[i] == x;
        assert((a + b)[i] == x);
    }
    if b.contains(x) {
        let i = choose|i: int| 0 <= i < b.len() && b[i] == x;
        assert((a + b)[a.len() + i] == x);
    }
}

} // verus!
