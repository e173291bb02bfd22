use vstd::prelude::*;
use vstd::arithmetic::div_mod::{
    lemma_add_mod_noop, lemma_div_of0, lemma_div_pos_is_pos, lemma_fundamental_div_mod,
    lemma_fundamental_div_mod_converse, lemma_mod_bound, lemma_mod_mod, lemma_small_mod,
};

use crate::error::VendingError;

verus! {

/// The face values a coin may carry.
pub open spec fn is_denomination(v: u32) -> bool {
    v == 10 || v == 50 || v == 100 || v == 500
}

fn validate(value: u32) -> (r: bool)
    ensures
        r == is_denomination(value),
{
    value == 10 || value == 50 || value == 100 || value == 500
}

/// A single coin, always carrying one of the accepted denominations.
#[derive(Debug, Clone, Copy)]
pub struct Coin {
    value: u32,
}

impl View for Coin {
    type V = u32;

    closed spec fn view(&self) -> u32 {
        self.value
    }
}

impl Coin {
    #[verifier::type_invariant]
    spec fn wf(self) -> bool {
        is_denomination(self.value)
    }

    /// Makes a coin of the given denomination; rejects every other value.
    pub fn new(value: u32) -> (r: Result<Coin, VendingError>)
        ensures
            r is Ok <==> is_denomination(value),
            r matches Ok(c) ==> c@ == value,
            r matches Err(e) ==> e == (VendingError::InvalidDenomination { value }),
    {
        if validate(value) {
            Ok(Coin { value })
        } else {
            Err(VendingError::InvalidDenomination { value })
        }
    }

    /// The denomination this coin carries.
    pub fn value(&self) -> (r: u32)
        ensures
            r == self@,
            is_denomination(r),
    {
        proof {
            use_type_invariant(self);
        }
        self.value
    }
}

/// The total value of a sequence of coin denominations.
pub open spec fn sum_values(s: Seq<u32>) -> int
    decreases s.len(),
{
    if s.len() == 0 {
        0
    } else {
        sum_values(s.drop_last()) + s.last()
    }
}

spec fn coin_values(s: Seq<Coin>) -> Seq<u32> {
    s.map_values(|c: Coin| c.value)
}

/// An ordered collection of coins; its view is the sequence of face values
/// in insertion order.
#[derive(Debug)]
pub struct Coins {
    vec: Vec<Coin>,
}

impl View for Coins {
    type V = Seq<u32>;

    closed spec fn view(&self) -> Seq<u32> {
        coin_values(self.vec@)
    }
}

impl Coins {
    #[verifier::type_invariant]
    spec fn wf(self) -> bool {
        forall|i: int|
            0 <= i < self.vec@.len() ==> is_denomination(#[trigger] self.vec@[i].value)
    }

    /// An empty collection.
    pub fn new() -> (r: Coins)
        ensures
            r@ == Seq::<u32>::empty(),
    {
        let r = Coins { vec: Vec::new() };
        proof {
            assert(r@ =~= Seq::<u32>::empty());
        }
        r
    }

    /// Builds the canonical decomposition of `amount`: for each denomination
    /// from the largest down, as many coins as still fit, so the remainder
    /// reaches exactly zero.
    pub fn from_total(amount: u32) -> (r: Coins)
        requires
            amount % 10 == 0,
        ensures
            r@ == greedy_seq(amount as int),
            sum_values(r@) == amount,
    {
        let mut v: Vec<Coin> = Vec::new();
        let q500: u32 = amount / 500;
        let r500: u32 = amount % 500;
        push_n(&mut v, q500, 500);
        let q100: u32 = r500 / 100;
        let r100: u32 = r500 % 100;
        push_n(&mut v, q100, 100);
        let q50: u32 = r100 / 50;
        let r50: u32 = r100 % 50;
        push_n(&mut v, q50, 50);
        let q10: u32 = r50 / 10;
        push_n(&mut v, q10, 10);
        let ghost c500 = rep_coins(q500 as int, 500u32);
        let ghost c100 = rep_coins(q100 as int, 100u32);
        let ghost c50 = rep_coins(q50 as int, 50u32);
        let ghost c10 = rep_coins(q10 as int, 10u32);
        proof {
            assert(Seq::<Coin>::empty() + c500 =~= c500);
            assert(v@ == c500 + c100 + c50 + c10);
            assert forall|i: int| 0 <= i < v@.len() implies is_denomination(
                #[trigger] v@[i].value,
            ) by {
                if i < c500.len() {
                    assert(v@[i] == c500[i]);
                } else if i < c500.len() + c100.len() {
                    assert(v@[i] == c100[i - c500.len()]);
                } else if i < c500.len() + c100.len() + c50.len() {
                    assert(v@[i] == c50[i - c500.len() - c100.len()]);
                } else {
                    assert(v@[i] == c10[i - c500.len() - c100.len() - c50.len()]);
                }
            }
        }
        let r = Coins { vec: v };
        proof {
            lemma_coin_values_concat(c500, c100);
            lemma_coin_values_concat(c500 + c100, c50);
            lemma_coin_values_concat(c500 + c100 + c50, c10);
            lemma_coin_values_rep(q500 as int, 500u32);
            lemma_coin_values_rep(q100 as int, 100u32);
            lemma_coin_values_rep(q50 as int, 50u32);
            lemma_coin_values_rep(q10 as int, 10u32);
            lemma_greedy_seq_sum(amount as int);
        }
        r
    }

    /// Appends one coin.
    pub fn push(&mut self, coin: Coin)
        ensures
            final(self)@ == old(self)@.push(coin@),
    {
        proof {
            use_type_invariant(&*self);
            use_type_invariant(&coin);
        }
        let ghost prev = self.vec@;
        let mut v: Vec<Coin> = Vec::new();
        core::mem::swap(&mut self.vec, &mut v);
        v.push(coin);
        self.vec = v;
        proof {
            assert(coin_values(prev.push(coin)) =~= coin_values(prev).push(coin.value));
        }
    }

    /// Appends every coin of `other`, keeping order.
    pub fn extend(&mut self, other: Coins)
        ensures
            final(self)@ == old(self)@ + other@,
    {
        proof {
            use_type_invariant(&*self);
            use_type_invariant(&other);
        }
        let ghost prev = self.vec@;
        let mut v: Vec<Coin> = Vec::new();
        core::mem::swap(&mut self.vec, &mut v);
        let n = other.vec.len();
        let mut i: usize = 0;
        while i < n
            invariant
                i <= n,
                n == other.vec@.len(),
                v@ == prev + other.vec@.take(i as int),
                forall|j: int| 0 <= j < prev.len() ==> is_denomination(#[trigger] prev[j].value),
                forall|j: int|
                    0 <= j < other.vec@.len() ==> is_denomination(
                        #[trigger] other.vec@[j].value,
                    ),
            decreases n - i,
        {
            v.push(other.vec[i]);
            proof {
                assert((prev + other.vec@.take(i as int)).push(other.vec@[i as int]) =~= prev
                    + other.vec@.take(i as int + 1));
            }
            i = i + 1;
        }
        self.vec = v;
        proof {
            assert(other.vec@.take(n as int) =~= other.vec@);
            assert(coin_values(prev + other.vec@) =~= coin_values(prev) + coin_values(
                other.vec@,
            ));
        }
    }

    /// The total value of the collection. Since every coin carries an
    /// accepted denomination, the total is always a multiple of ten.
    pub fn sum(&self) -> (r: u32)
        requires
            sum_values(self@) <= u32::MAX,
        ensures
            r == sum_values(self@),
            r % 10 == 0,
    {
        proof {
            use_type_invariant(&*self);
            assert forall|i: int| 0 <= i < self@.len() implies is_denomination(
                #[trigger] self@[i],
            ) by {
                assert(self@[i] == self.vec@[i].value);
            }
            lemma_sum_values_mod_ten(self@);
        }
        let mut total: u32 = 0;
        let mut i: usize = 0;
        let n = self.vec.len();
        while i < n
            invariant
                i <= n,
                n == self.vec@.len(),
                self@.len() == n,
                sum_values(self@) <= u32::MAX,
                total == sum_values(self@.take(i as int)),
            decreases n - i,
        {
            let c = self.vec[i];
            proof {
                lemma_sum_take_succ(self@, i as int);
                lemma_sum_take_le(self@, i as int + 1);
                assert(c.value == self@[i as int]);
            }
            total = total + c.value;
            i = i + 1;
        }
        proof {
            assert(self@.take(n as int) =~= self@);
        }
        total
    }

    /// The face values in insertion order.
    pub fn values(&self) -> (r: Vec<u32>)
        ensures
            r@ == self@,
    {
        let mut r: Vec<u32> = Vec::new();
        let mut i: usize = 0;
        let n = self.vec.len();
        while i < n
            invariant
                i <= n,
                n == self.vec@.len(),
                self@.len() == n,
                r@ == self@.take(i as int),
            decreases n - i,
        {
            let c = self.vec[i];
            r.push(c.value);
            proof {
                assert(c.value == self@[i as int]);
                assert(self@.take(i as int).push(self@[i as int]) =~= self@.take(i as int + 1));
            }
            i = i + 1;
        }
        proof {
            assert(self@.take(n as int) =~= self@);
        }
        r
    }
}

/// The total of a sequence of denominations is never negative.
pub proof fn lemma_sum_values_nonneg(s: Seq<u32>)
    ensures
        sum_values(s) >= 0,
    decreases s.len(),
{
    if s.len() > 0 {
        lemma_sum_values_nonneg(s.drop_last());
    }
}

proof fn lemma_sum_take_succ(s: Seq<u32>, i: int)
    requires
        0 <= i < s.len(),
    ensures
        sum_values(s.take(i + 1)) == sum_values(s.take(i)) + s[i],
{
    assert(s.take(i + 1).drop_last() =~= s.take(i));
    assert(s.take(i + 1).last() == s[i]);
}

proof fn lemma_sum_take_le(s: Seq<u32>, i: int)
    requires
        0 <= i <= s.len(),
    ensures
        sum_values(s.take(i)) <= sum_values(s),
    decreases s.len() - i,
{
    if i == s.len() {
        assert(s.take(i) =~= s);
    } else {
        lemma_sum_take_succ(s, i);
        lemma_sum_take_le(s, i + 1);
    }
}

/// `n` copies of the value `v` (empty when `n` is not positive).
pub open spec fn rep_value(n: int, v: u32) -> Seq<u32> {
    if n <= 0 {
        Seq::empty()
    } else {
        Seq::new(n as nat, |i: int| v)
    }
}

spec fn rep_coins(n: int, v: u32) -> Seq<Coin> {
    if n <= 0 {
        Seq::empty()
    } else {
        Seq::new(n as nat, |i: int| (Coin { value: v }))
    }
}

/// The canonical decomposition of an amount: for each denomination from the
/// largest down, as many coins as still fit.
pub open spec fn greedy_seq(a: int) -> Seq<u32> {
    rep_value(a / 500, 500u32) + rep_value((a % 500) / 100, 100u32) + rep_value(
        ((a % 500) % 100) / 50,
        50u32,
    ) + rep_value((((a % 500) % 100) % 50) / 10, 10u32)
}

spec fn greedy_count(a: int) -> int {
    a / 500 + (a % 500) / 100 + ((a % 500) % 100) / 50 + (((a % 500) % 100) % 50) / 10
}

proof fn lemma_sum_rep(n: int, v: u32)
    requires
        n >= 0,
    ensures
        rep_value(n, v).len() == n,
        sum_values(rep_value(n, v)) == n * v,
    decreases n,
{
    if n == 0 {
    } else {
        lemma_sum_rep(n - 1, v);
        assert(rep_value(n, v).drop_last() =~= rep_value(n - 1, v));
        assert((n - 1) * v + v == n * v) by (nonlinear_arith);
    }
}

proof fn lemma_coin_values_concat(s: Seq<Coin>, t: Seq<Coin>)
    ensures
        coin_values(s + t) == coin_values(s) + coin_values(t),
{
    assert(coin_values(s + t) =~= coin_values(s) + coin_values(t));
}

proof fn lemma_coin_values_rep(n: int, v: u32)
    ensures
        coin_values(rep_coins(n, v)) == rep_value(n, v),
{
    assert(coin_values(rep_coins(n, v)) =~= rep_value(n, v));
}

/// Summing a concatenation sums the parts.
pub proof fn lemma_sum_values_concat(s: Seq<u32>, t: Seq<u32>)
    ensures
        sum_values(s + t) == sum_values(s) + sum_values(t),
    decreases t.len(),
{
    if t.len() == 0 {
        assert(s + t =~= s);
    } else {
        assert((s + t).drop_last() =~= s + t.drop_last());
        assert((s + t).last() == t.last());
        lemma_sum_values_concat(s, t.drop_last());
    }
}

fn push_n(v: &mut Vec<Coin>, count: u32, value: u32)
    requires
        is_denomination(value),
    ensures
        final(v)@ == old(v)@ + rep_coins(count as int, value),
{
    let ghost prev = v@;
    proof {
        assert(prev + rep_coins(0, value) =~= prev);
    }
    let mut k: u32 = 0;
    while k < count
        invariant
            k <= count,
            is_denomination(value),
            v@ == prev + rep_coins(k as int, value),
        decreases count - k,
    {
        v.push(Coin { value });
        proof {
            assert((prev + rep_coins(k as int, value)).push(Coin { value }) =~= prev + rep_coins(
                k as int + 1,
                value,
            ));
        }
        k = k + 1;
    }
}

/// The canonical decomposition of a non-negative multiple of ten sums to
/// exactly that amount.
pub proof fn lemma_greedy_seq_sum(a: int)
    requires
        a >= 0,
        a % 10 == 0,
    ensures
        sum_values(greedy_seq(a)) == a,
{
    let r500 = a % 500;
    let r100 = r500 % 100;
    let r50 = r100 % 50;
    lemma_mod_bound(a, 500);
    lemma_mod_bound(r500, 100);
    lemma_mod_bound(r100, 50);
    lemma_div_pos_is_pos(a, 500);
    lemma_div_pos_is_pos(r500, 100);
    lemma_div_pos_is_pos(r100, 50);
    lemma_div_pos_is_pos(r50, 10);
    lemma_fundamental_div_mod(a, 500);
    lemma_fundamental_div_mod(r500, 100);
    lemma_fundamental_div_mod(r100, 50);
    lemma_fundamental_div_mod(r50, 10);
    lemma_mod_mod(a, 10, 50);
    lemma_mod_mod(r500, 10, 10);
    lemma_mod_mod(r100, 10, 5);
    let s1 = rep_value(a / 500, 500u32);
    let s2 = rep_value(r500 / 100, 100u32);
    let s3 = rep_value(r100 / 50, 50u32);
    let s4 = rep_value(r50 / 10, 10u32);
    lemma_sum_rep(a / 500, 500u32);
    lemma_sum_rep(r500 / 100, 100u32);
    lemma_sum_rep(r100 / 50, 50u32);
    lemma_sum_rep(r50 / 10, 10u32);
    lemma_sum_values_concat(s1, s2);
    lemma_sum_values_concat(s1 + s2, s3);
    lemma_sum_values_concat(s1 + s2 + s3, s4);
}

proof fn lemma_greedy_seq_len(a: int)
    requires
        a >= 0,
    ensures
        greedy_seq(a).len() == greedy_count(a),
{
    let r500 = a % 500;
    let r100 = r500 % 100;
    let r50 = r100 % 50;
    lemma_mod_bound(a, 500);
    lemma_mod_bound(r500, 100);
    lemma_mod_bound(r100, 50);
    lemma_div_pos_is_pos(a, 500);
    lemma_div_pos_is_pos(r500, 100);
    lemma_div_pos_is_pos(r100, 50);
    lemma_div_pos_is_pos(r50, 10);
}

proof fn lemma_greedy_step(a: int, d: u32)
    requires
        a >= 0,
        is_denomination(d),
    ensures
        greedy_count(a + d) <= greedy_count(a) + 1,
{
    let q = a / 500;
    let r = a % 500;
    let p = r / 100;
    let t = r % 100;
    let u = t / 50;
    let w = t % 50;
    let x = w / 10;
    let z = w % 10;
    lemma_fundamental_div_mod(a, 500);
    lemma_mod_bound(a, 500);
    lemma_fundamental_div_mod(r, 100);
    lemma_mod_bound(r, 100);
    lemma_fundamental_div_mod(t, 50);
    lemma_mod_bound(t, 50);
    lemma_fundamental_div_mod(w, 10);
    lemma_mod_bound(w, 10);
    lemma_div_pos_is_pos(a, 500);
    lemma_div_pos_is_pos(r, 100);
    lemma_div_pos_is_pos(t, 50);
    lemma_div_pos_is_pos(w, 10);
    if d == 500 {
        lemma_fundamental_div_mod_converse(a + 500, 500, q + 1, r);
    } else if d == 100 {
        if p <= 3 {
            lemma_fundamental_div_mod_converse(a + 100, 500, q, r + 100);
            lemma_fundamental_div_mod_converse(r + 100, 100, p + 1, t);
        } else {
            lemma_fundamental_div_mod_converse(a + 100, 500, q + 1, t);
            lemma_fundamental_div_mod_converse(t, 100, 0, t);
        }
    } else if d == 50 {
        if u == 0 {
            lemma_fundamental_div_mod_converse(a + 50, 500, q, r + 50);
            lemma_fundamental_div_mod_converse(r + 50, 100, p, t + 50);
            lemma_fundamental_div_mod_converse(t + 50, 50, 1, w);
        } else if p <= 3 {
            lemma_fundamental_div_mod_converse(a + 50, 500, q, r + 50);
            lemma_fundamental_div_mod_converse(r + 50, 100, p + 1, w);
            lemma_fundamental_div_mod_converse(w, 50, 0, w);
        } else {
            lemma_fundamental_div_mod_converse(a + 50, 500, q + 1, w);
            lemma_fundamental_div_mod_converse(w, 100, 0, w);
            lemma_fundamental_div_mod_converse(w, 50, 0, w);
        }
    } else {
        if x <= 3 {
            lemma_fundamental_div_mod_converse(a + 10, 500, q, r + 10);
            lemma_fundamental_div_mod_converse(r + 10, 100, p, t + 10);
            lemma_fundamental_div_mod_converse(t + 10, 50, u, w + 10);
            lemma_fundamental_div_mod_converse(w + 10, 10, x + 1, z);
        } else if u == 0 {
            lemma_fundamental_div_mod_converse(a + 10, 500, q, r + 10);
            lemma_fundamental_div_mod_converse(r + 10, 100, p, t + 10);
            lemma_fundamental_div_mod_converse(t + 10, 50, 1, z);
            lemma_fundamental_div_mod_converse(z, 10, 0, z);
        } else if p <= 3 {
            lemma_fundamental_div_mod_converse(a + 10, 500, q, r + 10);
            lemma_fundamental_div_mod_converse(r + 10, 100, p + 1, z);
            lemma_fundamental_div_mod_converse(z, 50, 0, z);
            lemma_fundamental_div_mod_converse(z, 10, 0, z);
        } else {
            lemma_fundamental_div_mod_converse(a + 10, 500, q + 1, z);
            lemma_fundamental_div_mod_converse(z, 100, 0, z);
            lemma_fundamental_div_mod_converse(z, 50, 0, z);
            lemma_fundamental_div_mod_converse(z, 10, 0, z);
        }
    }
}

/// Among all collections of accepted denominations with a given total, the
/// canonical decomposition of that total uses the fewest coins.
pub proof fn lemma_greedy_minimal(s: Seq<u32>)
    requires
        forall|i: int| 0 <= i < s.len() ==> is_denomination(#[trigger] s[i]),
    ensures
        greedy_seq(sum_values(s)).len() <= s.len(),
    decreases s.len(),
{
    lemma_sum_values_nonneg(s);
    lemma_greedy_seq_len(sum_values(s));
    if s.len() == 0 {
        lemma_div_of0(500);
        lemma_div_of0(100);
        lemma_div_of0(50);
        lemma_div_of0(10);
        lemma_small_mod(0, 500);
        lemma_small_mod(0, 100);
        lemma_small_mod(0, 50);
    } else {
        let s0 = s.drop_last();
        let d = s.last();
        assert(forall|i: int| 0 <= i < s0.len() ==> is_denomination(#[trigger] s0[i]));
        lemma_sum_values_nonneg(s0);
        lemma_greedy_minimal(s0);
        lemma_greedy_seq_len(sum_values(s0));
        lemma_greedy_step(sum_values(s0), d);
    }
}

proof fn lemma_sum_values_mod_ten(s: Seq<u32>)
    requires
        forall|i: int| 0 <= i < s.len() ==> is_denomination(#[trigger] s[i]),
    ensures
        sum_values(s) % 10 == 0,
    decreases s.len(),
{
    if s.len() > 0 {
        let s0 = s.drop_last();
        assert(forall|i: int| 0 <= i < s0.len() ==> is_denomination(#[trigger] s0[i]));
        lemma_sum_values_mod_ten(s0);
        lemma_add_mod_noop(sum_values(s0), s.last() as int, 10);
    }
}

} // verus!
