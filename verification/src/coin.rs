use vstd::prelude::*;

verus! {

/// An amount of one token, named by its denomination.
#[derive(Debug, Clone, PartialEq, Eq)]
pub struct Coin {
    pub denom: String,
    pub amount: u128,
}

/// A coin with the given amount and denomination.
pub fn coin(amount: u128, denom: &str) -> (r: Coin)
    ensures
        r.amount == amount,
        r.denom@ == denom@,
{
    Coin { denom: denom.to_string(), amount }
}

impl Coin {
    /// A copy of this coin.
    pub fn duplicate(&self) -> (r: Coin)
        ensures
            r == *self,
    {
        Coin { denom: self.denom.clone(), amount: self.amount }
    }
}

/// A copy of a list of coins.
pub fn copy_coins(v: &Vec<Coin>) -> (r: Vec<Coin>)
    ensures
        r@ == v@,
{
    let mut out: Vec<Coin> = Vec::new();
    let mut i: usize = 0;
    while i < v.len()
        invariant
            i <= v@.len(),
            out@ =~= v@.subrange(0, i as int),
        decreases v@.len() - i,
    {
        out.push(v[i].duplicate());
        i = i + 1;
    }
    out
}

/// `i` is the first place in `s` whose denomination is `d`.
pub open spec fn is_first_with(s: Seq<Coin>, d: Seq<char>, i: int) -> bool {
    &&& 0 <= i < s.len()
    &&& s[i].denom@ == d
    &&& forall|j: int| 0 <= j < i ==> s[j].denom@ != d
}

/// The first place in `s` whose denomination is `d`, if there is one.
pub open spec fn first_with(s: Seq<Coin>, d: Seq<char>) -> Option<int> {
    if exists|i: int| is_first_with(s, d, i) {
        Some(choose|i: int| is_first_with(s, d, i))
    } else {
        None
    }
}

/// No denomination occurs twice.
pub open spec fn distinct_denoms(s: Seq<Coin>) -> bool {
    forall|i: int, j: int| 0 <= i < j < s.len() ==> (#[trigger] s[i]).denom@ != (#[trigger] s[j]).denom@
}

/// The first place of a denomination is the one `first_with` names.
pub proof fn lemma_first_with_is(s: Seq<Coin>, d: Seq<char>, i: int)
    requires
        is_first_with(s, d, i),
    ensures
        first_with(s, d) == Some(i),
{
    let k = choose|k: int| is_first_with(s, d, k);
    assert(is_first_with(s, d, k));
    if k < i {
        assert(s[k].denom@ != d);
    } else if k > i {
        assert(s[i].denom@ != d);
    }
}

/// In a list without repeated denominations, the place of a coin is the
/// first place of its denomination; a denomination at no place has none.
pub proof fn lemma_first_with_distinct(s: Seq<Coin>, d: Seq<char>)
    requires
        distinct_denoms(s),
    ensures
        forall|i: int| 0 <= i < s.len() && (#[trigger] s[i]).denom@ == d ==> first_with(s, d) == Some(i),
        (forall|i: int| 0 <= i < s.len() ==> (#[trigger] s[i]).denom@ != d) ==> first_with(s, d) is None,
{
    assert forall|i: int| 0 <= i < s.len() && (#[trigger] s[i]).denom@ == d implies first_with(s, d) == Some(i) by {
        assert forall|j: int| 0 <= j < i implies s[j].denom@ != d by {
            assert(s[j].denom@ != s[i].denom@);
        }
        lemma_first_with_is(s, d, i);
    }
}

/// The first place in `v` with denomination `d`.
pub fn find_first(v: &Vec<Coin>, d: &String) -> (r: Option<usize>)
    ensures
        match r {
            Some(i) => first_with(v@, d@) == Some(i as int) && i < v@.len(),
            None => first_with(v@, d@) is None,
        },
{
    let mut i: usize = 0;
    while i < v.len()
        invariant
            i <= v@.len(),
            forall|j: int| 0 <= j < i ==> v@[j].denom@ != d@,
        decreases v@.len() - i,
    {
        if v[i].denom == *d {
            proof {
                assert(is_first_with(v@, d@, i as int));
                assert forall|k: int| is_first_with(v@, d@, k) implies k == i by {
                    if k < i {
                    } else if k > i {
                        assert(v@[i as int].denom@ == d@);
                    }
                }
            }
            return Some(i);
        }
        i = i + 1;
    }
    proof {
        assert forall|k: int| !is_first_with(v@, d@, k) by {
            if 0 <= k < v@.len() {
                assert(v@[k].denom@ != d@);
            }
        }
    }
    None
}

/// Byte-wise lexicographic order: the order of Rust's `str` comparison.
pub open spec fn lex_lt(x: Seq<u8>, y: Seq<u8>) -> bool
    decreases x.len(),
{
    if y.len() == 0 {
        false
    } else if x.len() == 0 {
        true
    } else if x[0] != y[0] {
        x[0] < y[0]
    } else {
        lex_lt(x.drop_first(), y.drop_first())
    }
}

/// The bytes by which coins are ordered: the UTF-8 encoding of the denomination.
pub open spec fn denom_key(c: Coin) -> Seq<u8> {
    vstd::utf8::encode_utf8(c.denom@)
}

/// Whether the denomination `a` sorts strictly before `b`.
pub fn denom_lt(a: &String, b: &String) -> (r: bool)
    ensures
        r == lex_lt(vstd::utf8::encode_utf8(a@), vstd::utf8::encode_utf8(b@)),
{
    let x = a.as_str().as_bytes();
    let y = b.as_str().as_bytes();
    let ghost xs = x@;
    let ghost ys = y@;
    assert(xs.subrange(0, xs.len() as int) =~= xs);
    assert(ys.subrange(0, ys.len() as int) =~= ys);
    let mut i: usize = 0;
    while i < x.len() && i < y.len() && x[i] == y[i]
        invariant
            xs == x@,
            ys == y@,
            i <= x@.len(),
            i <= y@.len(),
            lex_lt(xs, ys) == lex_lt(xs.subrange(i as int, xs.len() as int), ys.subrange(i as int, ys.len() as int)),
        decreases x@.len() - i,
    {
        proof {
            let xa = xs.subrange(i as int, xs.len() as int);
            let ya = ys.subrange(i as int, ys.len() as int);
            assert(xa.drop_first() =~= xs.subrange(i + 1, xs.len() as int));
            assert(ya.drop_first() =~= ys.subrange(i + 1, ys.len() as int));
        }
        i = i + 1;
    }
    if i < x.len() && i < y.len() {
        x[i] < y[i]
    } else {
        i == x.len() && i < y.len()
    }
}

/// Inserting `c` into a sorted list after every coin that does not sort after it.
pub open spec fn insert_sorted(s: Seq<Coin>, c: Coin) -> Seq<Coin>
    decreases s.len(),
{
    if s.len() == 0 {
        seq![c]
    } else if lex_lt(denom_key(c), denom_key(s.last())) {
        insert_sorted(s.drop_last(), c).push(s.last())
    } else {
        s.push(c)
    }
}

/// The coins sorted by denomination, equal denominations keeping their order
/// (the stable sort of `sort_by` on the denominations).
pub open spec fn sorted_by_denom(s: Seq<Coin>) -> Seq<Coin>
    decreases s.len(),
{
    if s.len() == 0 {
        s
    } else {
        insert_sorted(sorted_by_denom(s.drop_last()), s.last())
    }
}

/// The place where `insert_sorted` puts `c`: after the last coin that does
/// not sort after it.
pub open spec fn insert_position(s: Seq<Coin>, c: Coin) -> int
    decreases s.len(),
{
    if s.len() == 0 || !lex_lt(denom_key(c), denom_key(s.last())) {
        s.len() as int
    } else {
        insert_position(s.drop_last(), c)
    }
}

proof fn lemma_insert_position(s: Seq<Coin>, c: Coin)
    ensures
        0 <= insert_position(s, c) <= s.len(),
        insert_sorted(s, c) =~= s.insert(insert_position(s, c), c),
    decreases s.len(),
{
    if s.len() > 0 && lex_lt(denom_key(c), denom_key(s.last())) {
        lemma_insert_position(s.drop_last(), c);
        let p = insert_position(s.drop_last(), c);
        assert(s.drop_last().insert(p, c).push(s.last()) =~= s.insert(p, c));
    }
}

/// The coins sorted by denomination; coins of equal denomination keep their order.
pub fn sort_tokens(tokens: Vec<Coin>) -> (r: Vec<Coin>)
    ensures
        r@ == sorted_by_denom(tokens@),
{
    let mut out: Vec<Coin> = Vec::new();
    let n = tokens.len();
    let mut rest = tokens;
    let ghost input = rest@;
    let mut i: usize = 0;
    while i < n
        invariant
            n == input.len(),
            i <= n,
            rest@ =~= input.subrange(i as int, n as int),
            out@ == sorted_by_denom(input.subrange(0, i as int)),
        decreases n - i,
    {
        let c = rest.remove(0);
        proof {
            assert(c == input[i as int]);
            assert(input.subrange(0, i as int + 1).drop_last() =~= input.subrange(0, i as int));
            lemma_insert_position(out@, c);
        }
        let mut p: usize = out.len();
        assert(out@.subrange(0, p as int) =~= out@);
        while p > 0 && denom_lt(&c.denom, &out[p - 1].denom)
            invariant
                p <= out@.len(),
                insert_position(out@, c) == insert_position(out@.subrange(0, p as int), c),
            decreases p,
        {
            proof {
                assert(out@.subrange(0, p as int).drop_last() =~= out@.subrange(0, p as int - 1));
            }
            p = p - 1;
        }
        proof {
            assert(insert_position(out@.subrange(0, p as int), c) == p);
        }
        out.insert(p, c);
        i = i + 1;
    }
    assert(input.subrange(0, n as int) =~= input);
    out
}

/// The coins of a list whose amount is not zero, in their order.
pub open spec fn positive_coins(s: Seq<Coin>) -> Seq<Coin>
    decreases s.len(),
{
    if s.len() == 0 {
        s
    } else if s.last().amount > 0 {
        positive_coins(s.drop_last()).push(s.last())
    } else {
        positive_coins(s.drop_last())
    }
}

/// The coins of `tokens` with a non-zero amount, in their order.
pub fn filter_positive(tokens: Vec<Coin>) -> (r: Vec<Coin>)
    ensures
        r@ == positive_coins(tokens@),
{
    let mut out: Vec<Coin> = Vec::new();
    let n = tokens.len();
    let mut rest = tokens;
    let ghost input = rest@;
    let mut i: usize = 0;
    while i < n
        invariant
            n == input.len(),
            i <= n,
            rest@ =~= input.subrange(i as int, n as int),
            out@ == positive_coins(input.subrange(0, i as int)),
        decreases n - i,
    {
        let c = rest.remove(0);
        proof {
            assert(c == input[i as int]);
            assert(input.subrange(0, i as int + 1).drop_last() =~= input.subrange(0, i as int));
        }
        if c.amount > 0 {
            out.push(c);
        }
        i = i + 1;
    }
    assert(input.subrange(0, n as int) =~= input);
    out
}

/// No byte string sorts before itself.
proof fn lemma_lex_irreflexive(x: Seq<u8>)
    ensures
        !lex_lt(x, x),
    decreases x.len(),
{
    if x.len() > 0 {
        lemma_lex_irreflexive(x.drop_first());
    }
}

/// The byte-wise order is transitive.
proof fn lemma_lex_transitive(x: Seq<u8>, y: Seq<u8>, z: Seq<u8>)
    requires
        lex_lt(x, y),
        lex_lt(y, z),
    ensures
        lex_lt(x, z),
    decreases x.len(),
{
    if x.len() > 0 && y.len() > 0 && z.len() > 0 && x[0] == y[0] && y[0] == z[0] {
        lemma_lex_transitive(x.drop_first(), y.drop_first(), z.drop_first());
    }
}

/// Of two different byte strings, one sorts before the other.
proof fn lemma_lex_total(x: Seq<u8>, y: Seq<u8>)
    ensures
        x == y || lex_lt(x, y) || lex_lt(y, x),
    decreases x.len(),
{
    if x.len() > 0 && y.len() > 0 && x[0] == y[0] {
        lemma_lex_total(x.drop_first(), y.drop_first());
        if x.drop_first() == y.drop_first() {
            assert(x =~= seq![x[0]] + x.drop_first());
            assert(y =~= seq![y[0]] + y.drop_first());
        }
    } else if x.len() == 0 && y.len() == 0 {
        assert(x =~= y);
    }
}

/// Coins sorted by denomination: no coin sorts before an earlier one.
pub open spec fn is_sorted_by_denom(s: Seq<Coin>) -> bool {
    forall|i: int, j: int| 0 <= i < j < s.len() ==> !lex_lt(denom_key(#[trigger] s[j]), denom_key(#[trigger] s[i]))
}

/// The coins that `insert_position` passes over sort after `c`; the one before does not.
proof fn lemma_insert_position_bounds(s: Seq<Coin>, c: Coin)
    ensures
        forall|k: int| insert_position(s, c) <= k < s.len() ==> lex_lt(denom_key(c), denom_key(#[trigger] s[k])),
        insert_position(s, c) > 0 ==> !lex_lt(denom_key(c), denom_key(s[insert_position(s, c) - 1])),
    decreases s.len(),
{
    lemma_insert_position(s, c);
    if s.len() > 0 && lex_lt(denom_key(c), denom_key(s.last())) {
        lemma_insert_position_bounds(s.drop_last(), c);
        lemma_insert_position(s.drop_last(), c);
        let p = insert_position(s, c);
        assert forall|k: int| insert_position(s, c) <= k < s.len() implies lex_lt(denom_key(c), denom_key(#[trigger] s[k])) by {
            if k < s.len() - 1 {
                assert(s.drop_last()[k] == s[k]);
            }
        }
        if p > 0 {
            assert(s.drop_last()[p - 1] == s[p - 1]);
        }
    }
}

/// Inserting into a sorted list at `insert_position` keeps it sorted.
proof fn lemma_insert_sorted_sorted(s: Seq<Coin>, c: Coin)
    requires
        is_sorted_by_denom(s),
    ensures
        is_sorted_by_denom(insert_sorted(s, c)),
{
    lemma_insert_position(s, c);
    lemma_insert_position_bounds(s, c);
    let p = insert_position(s, c);
    let t = s.insert(p, c);
    assert forall|i: int, j: int| 0 <= i < j < t.len() implies !lex_lt(denom_key(#[trigger] t[j]), denom_key(#[trigger] t[i])) by {
        if j < p {
            assert(t[i] == s[i] && t[j] == s[j]);
        } else if j == p {
            // t[j] is c; t[i] = s[i] with i < p, which sorts no later than s[p - 1]
            assert(t[i] == s[i]);
            assert(!lex_lt(denom_key(c), denom_key(s[p - 1])));
            if i < p - 1 {
                assert(!lex_lt(denom_key(s[p - 1]), denom_key(s[i])));
                if lex_lt(denom_key(c), denom_key(s[i])) {
                    lemma_lex_total(denom_key(s[p - 1]), denom_key(s[i]));
                    if denom_key(s[p - 1]) != denom_key(s[i]) {
                        lemma_lex_transitive(denom_key(c), denom_key(s[i]), denom_key(s[p - 1]));
                    }
                }
            }
        } else if i == p {
            assert(t[j] == s[j - 1]);
            assert(lex_lt(denom_key(c), denom_key(s[j - 1])));
            if lex_lt(denom_key(s[j - 1]), denom_key(c)) {
                lemma_lex_transitive(denom_key(c), denom_key(s[j - 1]), denom_key(c));
                lemma_lex_irreflexive(denom_key(c));
            }
        } else if i < p {
            assert(t[i] == s[i] && t[j] == s[j - 1]);
        } else {
            assert(t[i] == s[i - 1] && t[j] == s[j - 1]);
        }
    }
}

/// `sort_tokens` sorts: its result is sorted by denomination and holds the
/// same coins as its input, each as often.
pub proof fn law_sort_tokens_sorts(s: Seq<Coin>)
    ensures
        is_sorted_by_denom(sorted_by_denom(s)),
        sorted_by_denom(s).to_multiset() == s.to_multiset(),
    decreases s.len(),
{
    broadcast use vstd::seq_lib::to_multiset_insert, vstd::seq_lib::to_multiset_build;
    if s.len() > 0 {
        law_sort_tokens_sorts(s.drop_last());
        let r = sorted_by_denom(s.drop_last());
        lemma_insert_sorted_sorted(r, s.last());
        lemma_insert_position(r, s.last());
        assert(s.drop_last().push(s.last()) =~= s);
    } else {
        assert(sorted_by_denom(s) == s);
    }
}

proof fn lemma_positive_coins_from(s: Seq<Coin>)
    ensures
        forall|i: int| 0 <= i < positive_coins(s).len() ==> (#[trigger] positive_coins(s)[i]).amount > 0,
        forall|i: int| 0 <= i < positive_coins(s).len() ==>
            exists|j: int| 0 <= j < s.len() && s[j] == #[trigger] positive_coins(s)[i],
        is_sorted_by_denom(s) ==> is_sorted_by_denom(positive_coins(s)),
    decreases s.len(),
{
    if s.len() > 0 {
        let d = s.drop_last();
        lemma_positive_coins_from(d);
        let p = positive_coins(d);
        assert forall|i: int| 0 <= i < p.len() implies exists|j: int| 0 <= j < s.len() && s[j] == #[trigger] p[i] by {
            let j = choose|j: int| 0 <= j < d.len() && d[j] == p[i];
            assert(s[j] == p[i]);
        }
        if s.last().amount > 0 {
            let q = p.push(s.last());
            assert forall|i: int| 0 <= i < q.len() implies exists|j: int| 0 <= j < s.len() && s[j] == #[trigger] q[i] by {
                if i == p.len() {
                    assert(s[s.len() - 1] == q[i]);
                } else {
                    assert(q[i] == p[i]);
                }
            }
            if is_sorted_by_denom(s) {
                assert(is_sorted_by_denom(d));
                assert forall|a: int, b: int| 0 <= a < b < q.len() implies !lex_lt(denom_key(#[trigger] q[b]), denom_key(#[trigger] q[a])) by {
                    if b == p.len() {
                        let j = choose|j: int| 0 <= j < d.len() && d[j] == p[a];
                        assert(q[a] == s[j]);
                        assert(q[b] == s[s.len() - 1]);
                    } else {
                        assert(q[a] == p[a] && q[b] == p[b]);
                    }
                }
            }
        } else if is_sorted_by_denom(s) {
            assert(is_sorted_by_denom(d));
        }
    }
}

/// The coins a list pays out (`coins` of a coin list): sorted by
/// denomination, and each with a positive amount.
pub proof fn law_paid_coins_sorted_positive(s: Seq<Coin>)
    ensures
        is_sorted_by_denom(positive_coins(sorted_by_denom(s))),
        forall|i: int| 0 <= i < positive_coins(sorted_by_denom(s)).len() ==>
            (#[trigger] positive_coins(sorted_by_denom(s))[i]).amount > 0,
{
    law_sort_tokens_sorts(s);
    lemma_positive_coins_from(sorted_by_denom(s));
}

} // verus!
