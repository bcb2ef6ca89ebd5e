//! Sequences as the model of every list in this crate.
//!
//! A list is viewed as the sequence of its elements, front first. The functions here say what
//! the operations of the lists do to that sequence, and the lemmas state the order in which
//! elements come out again.

use vstd::prelude::*;

verus! {

/// `s` with `elem` put before its first element.
pub open spec fn put_front<T>(s: Seq<T>, elem: T) -> Seq<T> {
    seq![elem] + s
}

/// `s` with `elem` put after its last element.
pub open spec fn put_back<T>(s: Seq<T>, elem: T) -> Seq<T> {
    s.push(elem)
}

/// The first element of `s`, if it has one.
pub open spec fn front<T>(s: Seq<T>) -> Option<T> {
    if s.len() > 0 {
        Some(s[0])
    } else {
        None
    }
}

/// What follows the first element of `s`; the empty sequence has an empty rest.
pub open spec fn rest<T>(s: Seq<T>) -> Seq<T> {
    if s.len() > 0 {
        s.drop_first()
    } else {
        s
    }
}

/// What was put at the front is the front, and taking it away gives back the sequence as it
/// was. Nothing can be taken from the empty sequence, which stays empty.
pub proof fn lemma_put_front_then_take<T>(s: Seq<T>, elem: T)
    ensures
        front(put_front(s, elem)) == Some(elem),
        rest(put_front(s, elem)) == s,
        front(Seq::<T>::empty()) == None::<T>,
        rest(Seq::<T>::empty()) == Seq::<T>::empty(),
{
    assert(put_front(s, elem).drop_first() =~= s);
}

/// Last in, first out: after `a`, `b` and `c` were put at the front of `s` in this order,
/// three removals from the front give `c`, `b` and `a` and leave `s` as it was before. If
/// `s` was empty, a fourth removal gives nothing.
pub proof fn lemma_last_in_first_out<T>(s: Seq<T>, a: T, b: T, c: T)
    ensures
        ({
            let s1 = put_front(s, a);
            let s2 = put_front(s1, b);
            let s3 = put_front(s2, c);
            &&& front(s3) == Some(c)
            &&& rest(s3) == s2
            &&& front(s2) == Some(b)
            &&& rest(s2) == s1
            &&& front(s1) == Some(a)
            &&& rest(s1) == s
            &&& s.len() == 0 ==> front(rest(s1)) is None && rest(rest(s1)) == s
        }),
{
    let s1 = put_front(s, a);
    let s2 = put_front(s1, b);
    lemma_put_front_then_take(s, a);
    lemma_put_front_then_take(s1, b);
    lemma_put_front_then_take(s2, c);
}

/// An element put at the back waits for all that were there before it: it is the front only
/// of a sequence that was empty, and it stays the last when the front is taken away.
pub proof fn lemma_put_back_then_take<T>(s: Seq<T>, elem: T)
    ensures
        front(put_back(s, elem)) == if s.len() > 0 {
            front(s)
        } else {
            Some(elem)
        },
        rest(put_back(s, elem)) == if s.len() > 0 {
            put_back(rest(s), elem)
        } else {
            s
        },
{
    if s.len() > 0 {
        assert(put_back(s, elem).drop_first() =~= put_back(s.drop_first(), elem));
    } else {
        assert(put_back(s, elem).drop_first() =~= s);
    }
}

/// First in, first out: after `a`, `b` and `c` were put at the back of the empty sequence in
/// this order, three removals from the front give `a`, `b` and `c` and leave it empty, with
/// nothing more to take. When `d` and `e` are then put at the back, two removals give `d` and
/// `e` and leave it empty once more.
pub proof fn lemma_first_in_first_out<T>(a: T, b: T, c: T, d: T, e: T)
    ensures
        ({
            let s0 = Seq::<T>::empty();
            let s3 = put_back(put_back(put_back(s0, a), b), c);
            let s5 = put_back(put_back(rest(rest(rest(s3))), d), e);
            &&& front(s3) == Some(a)
            &&& front(rest(s3)) == Some(b)
            &&& front(rest(rest(s3))) == Some(c)
            &&& rest(rest(rest(s3))) == s0
            &&& front(s0) == None::<T>
            &&& front(s5) == Some(d)
            &&& front(rest(s5)) == Some(e)
            &&& rest(rest(s5)) == s0
        }),
{
    let s0 = Seq::<T>::empty();
    let s1 = put_back(s0, a);
    let s2 = put_back(s1, b);
    let s3 = put_back(s2, c);
    lemma_put_back_then_take(s0, a);
    lemma_put_back_then_take(s1, b);
    lemma_put_back_then_take(s2, c);
    lemma_put_back_then_take(rest(s1), b);
    lemma_put_back_then_take(rest(s2), c);
    lemma_put_back_then_take(rest(rest(s2)), c);
    let s4 = put_back(s0, d);
    lemma_put_back_then_take(s0, d);
    lemma_put_back_then_take(s4, e);
    lemma_put_back_then_take(rest(s4), e);
}

} // verus!
