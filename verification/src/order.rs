//! Total preorders, lexicographic comparison of character sequences and a
//! verified merge sort used wherever the application orders entries.
use vstd::prelude::*;
use vstd::multiset::Multiset;

verus! {

/// A type whose values are compared by a total preorder (`le`), reflexive
/// through totality, transitive, but possibly with distinct equivalent values.
pub trait TotalPreorder: Sized {
    spec fn le(self, other: Self) -> bool;

    proof fn lemma_total(a: Self, b: Self)
        ensures
            a.le(b) || b.le(a),
    ;

    proof fn lemma_trans(a: Self, b: Self, c: Self)
        requires
            a.le(b),
            b.le(c),
        ensures
            a.le(c),
    ;

    fn exec_le(&self, other: &Self) -> (r: bool)
        ensures
            r == self.le(*other),
    ;
}

/// Every earlier element is `le` every later element.
pub open spec fn sorted<T: TotalPreorder>(s: Seq<T>) -> bool {
    forall|i: int, j: int| 0 <= i < j < s.len() ==> #[trigger] s[i].le(#[trigger] s[j])
}

/// Three-way lexicographic comparison of character sequences by code point:
/// negative when `a` sorts first, zero when equal, positive otherwise.
pub open spec fn lex_order(a: Seq<char>, b: Seq<char>) -> int
    decreases a.len(),
{
    if a.len() == 0 {
        if b.len() == 0 {
            0
        } else {
            -1
        }
    } else if b.len() == 0 {
        1
    } else if (a[0] as int) < (b[0] as int) {
        -1
    } else if (a[0] as int) > (b[0] as int) {
        1
    } else {
        lex_order(a.drop_first(), b.drop_first())
    }
}

pub proof fn lemma_lex_order_antisym(a: Seq<char>, b: Seq<char>)
    ensures
        lex_order(a, b) == -lex_order(b, a),
        -1 <= lex_order(a, b) <= 1,
        lex_order(a, b) == 0 <==> a == b,
    decreases a.len(),
{
    if a.len() > 0 && b.len() > 0 {
        lemma_lex_order_antisym(a.drop_first(), b.drop_first());
        if (a[0] as int) == (b[0] as int) {
            assert(a[0] == b[0]);
            if a.drop_first() == b.drop_first() {
                assert(a =~= seq![a[0]] + a.drop_first());
                assert(b =~= seq![b[0]] + b.drop_first());
            }
        } else {
            assert(a[0] != b[0]);
        }
    }
    if a.len() == 0 && b.len() == 0 {
        assert(a =~= b);
    }
}

pub proof fn lemma_lex_order_trans(a: Seq<char>, b: Seq<char>, c: Seq<char>)
    requires
        lex_order(a, b) <= 0,
        lex_order(b, c) <= 0,
    ensures
        lex_order(a, c) <= 0,
        lex_order(a, b) < 0 || lex_order(b, c) < 0 ==> lex_order(a, c) < 0,
    decreases a.len(),
{
    lemma_lex_order_antisym(a, b);
    lemma_lex_order_antisym(b, c);
    if a.len() > 0 && b.len() > 0 && c.len() > 0 {
        if (a[0] as int) == (b[0] as int) && (b[0] as int) == (c[0] as int) {
            lemma_lex_order_trans(a.drop_first(), b.drop_first(), c.drop_first());
        }
    }
}

/// Executable three-way comparison over character vectors.
pub fn lex_order_chars(a: &Vec<char>, b: &Vec<char>) -> (r: i8)
    ensures
        r as int == lex_order(a@, b@),
{
    let mut i: usize = 0;
    assert(a@.skip(0) =~= a@);
    assert(b@.skip(0) =~= b@);
    while i < a.len() && i < b.len()
        invariant
            i <= a.len(),
            i <= b.len(),
            lex_order(a@, b@) == lex_order(a@.skip(i as int), b@.skip(i as int)),
        decreases a.len() - i,
    {
        let x = a[i];
        let y = b[i];
        assert(a@.skip(i as int)[0] == a@[i as int]);
        assert(b@.skip(i as int)[0] == b@[i as int]);
        if x < y {
            return -1;
        } else if x > y {
            return 1;
        }
        assert(a@.skip(i as int).drop_first() =~= a@.skip(i + 1));
        assert(b@.skip(i as int).drop_first() =~= b@.skip(i + 1));
        i += 1;
    }
    if i < a.len() {
        1
    } else if i < b.len() {
        -1
    } else {
        0
    }
}

pub fn reverse_vec<T>(v: Vec<T>) -> (r: Vec<T>)
    ensures
        r@ == v@.reverse(),
{
    let mut src = v;
    let mut out: Vec<T> = Vec::new();
    let ghost orig = src@;
    while src.len() > 0
        invariant
            src@ == orig.take(src@.len() as int),
            out@ == orig.skip(src@.len() as int).reverse(),
            src@.len() <= orig.len(),
        decreases src@.len(),
    {
        let x = src.pop().unwrap();
        proof {
            assert(orig.skip(src@.len() as int).reverse() =~= orig.skip(src@.len() as int + 1).reverse().push(x));
        }
        out.push(x);
        assert(src@ =~= orig.take(src@.len() as int));
    }
    assert(orig.skip(0) =~= orig);
    out
}

proof fn lemma_sorted_push<T: TotalPreorder>(s: Seq<T>, x: T)
    requires
        sorted(s),
        forall|i: int| 0 <= i < s.len() ==> #[trigger] s[i].le(x),
    ensures
        sorted(s.push(x)),
{
    assert forall|i: int, j: int| 0 <= i < j < s.push(x).len() implies #[trigger] s.push(x)[i].le(
        #[trigger] s.push(x)[j],
    ) by {
        if j < s.len() {
        } else {
        }
    }
}

/// Facts about a vector kept back to front: its last element is the least and
/// dropping it keeps the remainder sorted front first.
proof fn lemma_rev_sorted_pop<T: TotalPreorder>(r: Seq<T>)
    requires
        sorted(r.reverse()),
        r.len() > 0,
    ensures
        sorted(r.drop_last().reverse()),
        forall|j: int| 0 <= j < r.len() ==> #[trigger] r.last().le(r[j]),
{
    let n = r.len();
    assert forall|j: int| 0 <= j < n implies #[trigger] r.last().le(r[j]) by {
        if j != n - 1 {
            assert(r.reverse()[0] == r.last());
            assert(r.reverse()[n - 1 - j] == r[j]);
        } else {
            T::lemma_total(r[j], r[j]);
        }
    }
    let d = r.drop_last();
    assert forall|i: int, j: int| 0 <= i < j < d.reverse().len() implies #[trigger] d.reverse()[i].le(
        #[trigger] d.reverse()[j],
    ) by {
        assert(d.reverse()[i] == r.reverse()[i + 1]);
        assert(d.reverse()[j] == r.reverse()[j + 1]);
    }
}

/// Moves the least remaining element of a back-to-front vector to the end of `out`.
fn move_least<T: TotalPreorder>(out: &mut Vec<T>, r: &mut Vec<T>, other: Ghost<Seq<T>>)
    requires
        old(r)@.len() > 0,
        sorted(old(r)@.reverse()),
        sorted(old(out)@),
        forall|i: int, j: int| 0 <= i < old(out)@.len() && 0 <= j < old(r)@.len() ==> #[trigger] old(out)@[i].le(#[trigger] old(r)@[j]),
        forall|i: int, j: int| 0 <= i < old(out)@.len() && 0 <= j < other@.len() ==> #[trigger] old(out)@[i].le(#[trigger] other@[j]),
        forall|j: int| 0 <= j < other@.len() ==> #[trigger] old(r)@.last().le(other@[j]),
    ensures
        final(r)@ == old(r)@.drop_last(),
        final(out)@ == old(out)@.push(old(r)@.last()),
        sorted(final(r)@.reverse()),
        sorted(final(out)@),
        forall|i: int, j: int| 0 <= i < final(out)@.len() && 0 <= j < final(r)@.len() ==> #[trigger] final(out)@[i].le(#[trigger] final(r)@[j]),
        forall|i: int, j: int| 0 <= i < final(out)@.len() && 0 <= j < other@.len() ==> #[trigger] final(out)@[i].le(#[trigger] other@[j]),
{
    let ghost r0 = r@;
    let ghost o0 = out@;
    proof {
        lemma_rev_sorted_pop(r0);
        assert forall|i: int| 0 <= i < o0.len() implies #[trigger] o0[i].le(r0.last()) by {
            assert(o0[i].le(r0[r0.len() - 1]));
        }
        lemma_sorted_push(o0, r0.last());
    }
    let x = r.pop().unwrap();
    out.push(x);
    proof {
        assert(r@ =~= r0.drop_last());
        assert forall|i: int, j: int| 0 <= i < out@.len() && 0 <= j < r@.len() implies #[trigger] out@[i].le(#[trigger] r@[j]) by {
            assert(r@[j] == r0[j]);
            if i == o0.len() {
                assert(out@[i] == x);
            } else {
                assert(out@[i] == o0[i]);
            }
        }
        assert forall|i: int, j: int| 0 <= i < out@.len() && 0 <= j < other@.len() implies #[trigger] out@[i].le(#[trigger] other@[j]) by {
            if i == o0.len() {
                assert(out@[i] == x);
            } else {
                assert(out@[i] == o0[i]);
            }
        }
    }
}

/// Merges two sorted vectors into one sorted vector holding exactly their elements.
pub fn merge_sorted<T: TotalPreorder>(a: Vec<T>, b: Vec<T>) -> (r: Vec<T>)
    requires
        sorted(a@),
        sorted(b@),
    ensures
        sorted(r@),
        r@.to_multiset() == a@.to_multiset().add(b@.to_multiset()),
{
    broadcast use vstd::seq_lib::group_to_multiset_ensures;
    let ghost ga = a@;
    let ghost gb = b@;
    let mut ra = reverse_vec(a);
    let mut rb = reverse_vec(b);
    proof {
        assert(ra@.reverse() =~= ga);
        assert(rb@.reverse() =~= gb);
        ga.lemma_reverse_to_multiset();
        gb.lemma_reverse_to_multiset();
        assert(ra@.to_multiset() == ga.to_multiset());
        assert(rb@.to_multiset() == gb.to_multiset());
    }
    let mut out: Vec<T> = Vec::new();
    proof {
        assert(out@.to_multiset() =~= Multiset::empty());
    }
    while ra.len() > 0 && rb.len() > 0
        invariant
            sorted(ra@.reverse()),
            sorted(rb@.reverse()),
            sorted(out@),
            forall|i: int, j: int| 0 <= i < out@.len() && 0 <= j < ra@.len() ==> #[trigger] out@[i].le(#[trigger] ra@[j]),
            forall|i: int, j: int| 0 <= i < out@.len() && 0 <= j < rb@.len() ==> #[trigger] out@[i].le(#[trigger] rb@[j]),
            out@.to_multiset().add(ra@.to_multiset()).add(rb@.to_multiset()) == ga.to_multiset().add(gb.to_multiset()),
        decreases ra@.len() + rb@.len(),
    {
        let ghost ra0 = ra@;
        let ghost rb0 = rb@;
        let ghost o0 = out@;
        proof {
            lemma_rev_sorted_pop(ra0);
            lemma_rev_sorted_pop(rb0);
        }
        let la = ra.len() - 1;
        let lb = rb.len() - 1;
        let take_a = ra[la].exec_le(&rb[lb]);
        if take_a {
            proof {
                assert forall|j: int| 0 <= j < rb0.len() implies #[trigger] ra0.last().le(rb0[j]) by {
                    T::lemma_trans(ra0.last(), rb0.last(), rb0[j]);
                }
            }
            move_least(&mut out, &mut ra, Ghost(rb0));
            proof {
                assert(ra0 =~= ra@.push(ra0.last()));
                vstd::seq_lib::to_multiset_build(ra@, ra0.last());
                vstd::seq_lib::to_multiset_build(o0, ra0.last());
                assert(out@.to_multiset().add(ra@.to_multiset()) =~= o0.to_multiset().add(ra0.to_multiset()));
            }
        } else {
            proof {
                T::lemma_total(ra0.last(), rb0.last());
                assert forall|j: int| 0 <= j < ra0.len() implies #[trigger] rb0.last().le(ra0[j]) by {
                    T::lemma_trans(rb0.last(), ra0.last(), ra0[j]);
                }
            }
            move_least(&mut out, &mut rb, Ghost(ra0));
            proof {
                assert(rb0 =~= rb@.push(rb0.last()));
                vstd::seq_lib::to_multiset_build(rb@, rb0.last());
                vstd::seq_lib::to_multiset_build(o0, rb0.last());
                assert(out@.to_multiset().add(ra@.to_multiset()).add(rb@.to_multiset()) =~= o0.to_multiset().add(ra0.to_multiset()).add(rb0.to_multiset()));
            }
        }
    }
    let mut rest = if ra.len() > 0 { ra } else { rb };
    proof {
        assert(out@.to_multiset().add(rest@.to_multiset()) =~= ga.to_multiset().add(gb.to_multiset()));
    }
    while rest.len() > 0
        invariant
            sorted(rest@.reverse()),
            sorted(out@),
            forall|i: int, j: int| 0 <= i < out@.len() && 0 <= j < rest@.len() ==> #[trigger] out@[i].le(#[trigger] rest@[j]),
            out@.to_multiset().add(rest@.to_multiset()) == ga.to_multiset().add(gb.to_multiset()),
        decreases rest@.len(),
    {
        let ghost r0 = rest@;
        let ghost o0 = out@;
        move_least(&mut out, &mut rest, Ghost(Seq::<T>::empty()));
        proof {
            assert(r0 =~= rest@.push(r0.last()));
            vstd::seq_lib::to_multiset_build(rest@, r0.last());
            vstd::seq_lib::to_multiset_build(o0, r0.last());
            assert(out@.to_multiset().add(rest@.to_multiset()) =~= o0.to_multiset().add(r0.to_multiset()));
        }
    }
    proof {
        assert(rest@.to_multiset() =~= Multiset::empty());
        assert(out@.to_multiset().add(rest@.to_multiset()) =~= out@.to_multiset());
    }
    out
}

/// Sorts a vector by the preorder; the result is a sorted permutation of the input.
pub fn merge_sort<T: TotalPreorder>(v: Vec<T>) -> (r: Vec<T>)
    ensures
        sorted(r@),
        r@.to_multiset() == v@.to_multiset(),
    decreases v@.len(),
{
    broadcast use vstd::seq_lib::group_to_multiset_ensures;
    if v.len() <= 1 {
        proof {
            assert forall|i: int, j: int| 0 <= i < j < v@.len() implies #[trigger] v@[i].le(#[trigger] v@[j]) by {}
        }
        return v;
    }
    let mid = v.len() / 2;
    let mut left = v;
    let ghost whole = left@;
    let right = left.split_off(mid);
    proof {
        assert(whole =~= left@ + right@);
        vstd::seq_lib::lemma_multiset_commutative(left@, right@);
    }
    let sl = merge_sort(left);
    let sr = merge_sort(right);
    merge_sorted(sl, sr)
}

/// Permuting a sequence permutes any projection of it.
pub proof fn lemma_map_preserves_multiset<A, B>(a: Seq<A>, b: Seq<A>, f: spec_fn(A) -> B)
    requires
        a.to_multiset() == b.to_multiset(),
    ensures
        a.map_values(f).to_multiset() == b.map_values(f).to_multiset(),
    decreases a.len(),
{
    broadcast use vstd::seq_lib::group_to_multiset_ensures;
    if a.len() == 0 {
        assert(b.to_multiset().len() == 0);
        assert(b.len() == 0);
        assert(a.map_values(f) =~= b.map_values(f));
    } else {
        let x = a.last();
        assert(a.to_multiset().count(x) > 0) by {
            assert(a.contains(x)) by { assert(a[a.len() - 1] == x); }
        }
        assert(b.contains(x));
        let i = choose|i: int| 0 <= i < b.len() && b[i] == x;
        let a2 = a.drop_last();
        let b2 = b.remove(i);
        assert(a =~= a2.push(x));
        vstd::seq_lib::to_multiset_build(a2, x);
        assert(b2.to_multiset() =~= b.to_multiset().remove(x));
        assert(a2.to_multiset() =~= a.to_multiset().remove(x));
        lemma_map_preserves_multiset(a2, b2, f);
        assert(a.map_values(f) =~= a2.map_values(f).push(f(x)));
        vstd::seq_lib::to_multiset_build(a2.map_values(f), f(x));
        assert(b.map_values(f).remove(i) =~= b2.map_values(f));
        assert(b.map_values(f)[i] == f(x));
        assert(b.map_values(f).remove(i).to_multiset() =~= b.map_values(f).to_multiset().remove(f(x)));
        assert(b.map_values(f).to_multiset().count(f(x)) > 0) by {
            assert(b.map_values(f).contains(f(x)));
        }
        assert(b.map_values(f).to_multiset() =~= b2.map_values(f).to_multiset().insert(f(x)));
    }
}

/// Every element of a permutation of `a` is an element of `a`.
pub proof fn lemma_permutation_member<A>(a: Seq<A>, b: Seq<A>, k: int)
    requires
        a.to_multiset() == b.to_multiset(),
        0 <= k < b.len(),
    ensures
        exists|m: int| 0 <= m < a.len() && a[m] == b[k],
{
    broadcast use vstd::seq_lib::group_to_multiset_ensures;
    assert(b.contains(b[k]));
    assert(b.to_multiset().count(b[k]) > 0);
    assert(a.to_multiset().count(b[k]) > 0);
    assert(a.contains(b[k]));
}

} // verus!
