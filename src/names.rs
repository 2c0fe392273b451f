use vstd::prelude::*;
use vstd::arithmetic::div_mod::lemma_fundamental_div_mod_converse;
use crate::text::push_char;

verus! {

/// Number of symbols that obfuscated names are drawn from.
pub const RADIX: usize = 63;

/// The symbols of obfuscated names, in ascending order.
pub const SYMBOLS: &'static str = "0123456789abcdefghijklmnopqrstuvwxyzABCDEFGHIJKLMNOPQRSTUVWXYZ_";

pub open spec fn symbols() -> Seq<char> {
    SYMBOLS@
}

pub proof fn lemma_symbols_len()
    ensures
        symbols().len() == RADIX,
{
    reveal_strlit("0123456789abcdefghijklmnopqrstuvwxyzABCDEFGHIJKLMNOPQRSTUVWXYZ_");
}

/// How many names of `len` symbols there are.
pub open spec fn name_count(len: nat) -> nat
    decreases len,
{
    if len == 0 {
        1
    } else {
        RADIX as nat * name_count((len - 1) as nat)
    }
}

/// The name of `len` symbols at position `k` of the ascending enumeration:
/// `k` written in base `RADIX`, most significant symbol first.
pub open spec fn name_at(k: nat, len: nat) -> Seq<char>
    decreases len,
{
    if len == 0 {
        Seq::empty()
    } else {
        name_at(k / RADIX as nat, (len - 1) as nat).push(symbols()[(k % RADIX as nat) as int])
    }
}

/// Every name at every position of the enumeration of length `len` has `len` symbols.
pub proof fn lemma_name_len(k: nat, len: nat)
    ensures
        name_at(k, len).len() == len,
    decreases len,
{
    if len > 0 {
        lemma_name_len(k / RADIX as nat, (len - 1) as nat);
    }
}

/// The number that a sequence of digits stands for, most significant digit first.
pub open spec fn digits_value(d: Seq<usize>) -> nat
    decreases d.len(),
{
    if d.len() == 0 {
        0
    } else {
        digits_value(d.drop_last()) * RADIX as nat + d.last() as nat
    }
}

/// The digits after adding one, with carry; the leading digit may reach `RADIX`.
pub open spec fn digits_succ(d: Seq<usize>) -> Seq<usize>
    decreases d.len(),
{
    if d.len() <= 1 || d.last() + 1 < RADIX {
        d.drop_last().push((d.last() + 1) as usize)
    } else {
        digits_succ(d.drop_last()).push(0)
    }
}

pub open spec fn small_digits(d: Seq<usize>) -> bool {
    forall|i: int| 0 <= i < d.len() ==> #[trigger] d[i] < RADIX
}

proof fn lemma_value_below_count(d: Seq<usize>)
    requires
        small_digits(d),
    ensures
        digits_value(d) < name_count(d.len()),
    decreases d.len(),
{
    if d.len() > 0 {
        let p = d.drop_last();
        assert(small_digits(p));
        lemma_value_below_count(p);
        let v = digits_value(p);
        let c = name_count(p.len());
        assert(d.last() < RADIX);
        assert(v * 63 + d.last() < c * 63) by (nonlinear_arith)
            requires
                v < c,
                d.last() < 63,
        ;
    }
}

proof fn lemma_name_of_digits(d: Seq<usize>)
    requires
        small_digits(d),
    ensures
        name_at(digits_value(d), d.len()) == d.map_values(|x: usize| symbols()[x as int]),
    decreases d.len(),
{
    if d.len() > 0 {
        let p = d.drop_last();
        assert(small_digits(p));
        lemma_name_of_digits(p);
        let v = digits_value(d);
        lemma_fundamental_div_mod_converse(
            v as int,
            RADIX as int,
            digits_value(p) as int,
            d.last() as int,
        );
        assert(d.map_values(|x: usize| symbols()[x as int]) =~= p.map_values(
            |x: usize| symbols()[x as int],
        ).push(symbols()[d.last() as int]));
    }
}

proof fn lemma_succ_value(d: Seq<usize>)
    requires
        d.len() >= 1,
        small_digits(d),
    ensures
        digits_value(digits_succ(d)) == digits_value(d) + 1,
        digits_succ(d).len() == d.len(),
    decreases d.len(),
{
    let p = d.drop_last();
    if d.len() <= 1 || d.last() + 1 < RADIX {
        assert(digits_succ(d).drop_last() =~= p);
        assert(digits_succ(d).last() == d.last() + 1);
    } else {
        assert(small_digits(p)) by {
            assert(forall|i: int| 0 <= i < p.len() ==> p[i] == d[i]);
        }
        lemma_succ_value(p);
        assert(d.last() == RADIX - 1);
        assert(digits_succ(d).drop_last() =~= digits_succ(p));
        assert(digits_succ(d).last() == 0);
        assert(digits_value(digits_succ(p)) * 63 == digits_value(p) * 63 + 63) by (nonlinear_arith)
            requires
                digits_value(digits_succ(p)) == digits_value(p) + 1,
        ;
    }
}

/// A walk through the names of one length in ascending order.
pub struct NameSearch {
    digits: Vec<usize>,
}

impl NameSearch {
    /// Length of the names enumerated.
    pub closed spec fn len(&self) -> nat {
        self.digits@.len()
    }

    /// Position of the current candidate in the enumeration; `name_count(len)` once exhausted.
    pub closed spec fn pos(&self) -> nat {
        digits_value(self.digits@)
    }

    pub closed spec fn wf(&self) -> bool {
        &&& self.digits@.len() >= 1
        &&& forall|i: int| 1 <= i < self.digits@.len() ==> #[trigger] self.digits@[i] < RADIX
        &&& self.digits@[0] <= RADIX
        &&& self.digits@[0] == RADIX ==> self.pos() == name_count(self.len())
        &&& self.pos() <= name_count(self.len())
    }

    /// Starts the enumeration of the names of `length` symbols at the first one.
    pub fn new(length: usize) -> (r: NameSearch)
        requires
            length >= 1,
        ensures
            r.wf(),
            r.len() == length,
            r.pos() == 0,
    {
        let digits: Vec<usize> = vec![0; length];
        let r = NameSearch { digits };
        proof {
            assert(small_digits(r.digits@));
            lemma_zero_value(r.digits@);
            lemma_value_below_count(r.digits@);
        }
        r
    }

    /// A second search at the same point.
    pub fn copy(&self) -> (r: NameSearch)
        requires
            self.wf(),
        ensures
            r.wf(),
            r.len() == self.len(),
            r.pos() == self.pos(),
    {
        NameSearch { digits: self.digits.clone() }
    }

    /// The length of the names enumerated.
    pub fn length(&self) -> (r: usize)
        requires
            self.wf(),
        ensures
            r == self.len(),
    {
        self.digits.len()
    }

    /// Whether every name of the length has been passed over.
    pub fn is_exhausted(&self) -> (r: bool)
        requires
            self.wf(),
        ensures
            r == (self.pos() == name_count(self.len())),
    {
        proof {
            if self.digits@[0] < RADIX {
                lemma_small_when_lead_small(self.digits@);
                lemma_value_below_count(self.digits@);
            }
        }
        self.digits[0] == RADIX
    }

    /// Passes over the current candidate, which is taken.
    pub fn skip(&mut self)
        requires
            old(self).wf(),
            old(self).pos() < name_count(old(self).len()),
        ensures
            final(self).wf(),
            final(self).len() == old(self).len(),
            final(self).pos() == old(self).pos() + 1,
    {
        let ghost start = self.digits@;
        let n = self.digits.len();
        let mut i: usize = n - 1;
        proof {
            if start[0] == RADIX {
                assert(false);
            }
            assert(start.subrange(0, n as int) =~= start);
            assert(digits_succ(start) =~= digits_succ(start) + start.subrange(n as int, n as int));
        }
        loop
            invariant_except_break
                self.digits@.subrange(0, i as int + 1) == start.subrange(0, i as int + 1),
                digits_succ(start) == digits_succ(self.digits@.subrange(0, i as int + 1))
                    + self.digits@.subrange(i as int + 1, n as int),
            invariant
                i < n,
                n == self.digits@.len(),
                n == start.len(),
                old(self).wf(),
                start == old(self).digits@,
                start[0] < RADIX,
                forall|j: int| i < j < n ==> self.digits@[j] == 0,
            ensures
                self.digits@ == digits_succ(start),
                self.digits@.len() == n,
                forall|j: int| 1 <= j < n ==> #[trigger] self.digits@[j] < RADIX,
                self.digits@[0] <= RADIX,
            decreases i,
        {
            let d = self.digits[i];
            assert(self.digits@[i as int] == start[i as int]);
            let ghost pre = self.digits@.subrange(0, i as int + 1);
            if i == 0 || d + 1 < RADIX {
                self.digits.set(i, d + 1);
                proof {
                    assert(pre.drop_last() =~= self.digits@.subrange(0, i as int));
                    assert(self.digits@ =~= digits_succ(pre) + self.digits@.subrange(
                        i as int + 1,
                        n as int,
                    ));
                    assert forall|j: int| 1 <= j < n implies #[trigger] self.digits@[j]
                        < RADIX by {
                        if j < i {
                            assert(self.digits@[j] == start[j]);
                        }
                    }
                }
                break;
            } else {
                self.digits.set(i, 0);
                proof {
                    let pre2 = self.digits@.subrange(0, i as int);
                    assert(pre.drop_last() =~= pre2);
                    assert(digits_succ(pre) == digits_succ(pre2).push(0));
                    assert(self.digits@.subrange(i as int, n as int) =~= seq![0usize]
                        + self.digits@.subrange(i as int + 1, n as int));
                    assert(digits_succ(start) =~= digits_succ(pre2) + self.digits@.subrange(
                        i as int,
                        n as int,
                    ));
                    assert(self.digits@.subrange(0, i as int) =~= start.subrange(0, i as int));
                }
                i = i - 1;
            }
        }
        proof {
            lemma_small_when_lead_small(start);
            lemma_succ_value(start);
            if self.digits@[0] == RADIX {
                lemma_value_at_least_lead(self.digits@);
            }
        }
    }
}

/// The current candidate of the search, or `None` once every name of its length
/// has been passed over.
pub fn generate_new_path(search: &NameSearch) -> (r: Option<String>)
    requires
        search.wf(),
    ensures
        r is Some <==> search.pos() < name_count(search.len()),
        r is Some ==> r->0@ == name_at(search.pos(), search.len()),
{
    if search.is_exhausted() {
        return None;
    }
    let digits = &search.digits;
    let n = digits.len();
    proof {
        lemma_small_when_lead_small(digits@);
        lemma_symbols_len();
    }
    let mut name = String::new();
    let mut i: usize = 0;
    while i < n
        invariant
            i <= n,
            n == digits@.len(),
            small_digits(digits@),
            symbols().len() == RADIX,
            name@ == digits@.subrange(0, i as int).map_values(|x: usize| symbols()[x as int]),
        decreases n - i,
    {
        let c = SYMBOLS.get_char(digits[i]);
        push_char(&mut name, c);
        assert(digits@.subrange(0, i as int + 1) =~= digits@.subrange(0, i as int).push(
            digits@[i as int],
        ));
        i = i + 1;
    }
    proof {
        assert(digits@.subrange(0, n as int) =~= digits@);
        lemma_name_of_digits(digits@);
    }
    Some(name)
}

proof fn lemma_zero_value(d: Seq<usize>)
    requires
        forall|i: int| 0 <= i < d.len() ==> d[i] == 0,
    ensures
        digits_value(d) == 0,
    decreases d.len(),
{
    if d.len() > 0 {
        lemma_zero_value(d.drop_last());
    }
}

proof fn lemma_small_when_lead_small(d: Seq<usize>)
    requires
        d.len() >= 1,
        d[0] < RADIX,
        forall|i: int| 1 <= i < d.len() ==> #[trigger] d[i] < RADIX,
    ensures
        small_digits(d),
{
}

proof fn lemma_value_at_least_lead(d: Seq<usize>)
    requires
        d.len() >= 1,
    ensures
        digits_value(d) >= d[0] * name_count((d.len() - 1) as nat),
    decreases d.len(),
{
    if d.len() == 1 {
        assert(digits_value(d.drop_last()) == 0);
        assert(d.last() == d[0]);
        assert(name_count(0) == 1);
        assert(d[0] * name_count(0) == d[0]);
    } else {
        let p = d.drop_last();
        assert(p[0] == d[0]);
        lemma_value_at_least_lead(p);
        let a = digits_value(p);
        let b = d[0] * name_count((p.len() - 1) as nat);
        assert(a * 63 >= b * 63) by (nonlinear_arith)
            requires
                a >= b,
        ;
        assert(digits_value(d) == a * 63 + d.last());
        assert(b * 63 == d[0] * name_count((d.len() - 1) as nat)) by (nonlinear_arith)
            requires
                b == d[0] * name_count((p.len() - 1) as nat),
                name_count((d.len() - 1) as nat) == 63 * name_count((p.len() - 1) as nat),
        ;
    }
}

} // verus!
