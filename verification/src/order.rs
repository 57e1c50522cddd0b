//! Orders on text, and stable sorting by them.
//!
//! A sort key is a list of tokens, each a pair of numbers; keys are compared
//! token by token, and a key comes before its own extensions.

use vstd::prelude::*;

use vstd::arithmetic::power::pow;

use crate::number::{all_digits, digits_value, is_digit};
use crate::text::{all_differ, ascii_lower_char, chars_of, lower_char, set_of, texts};

verus! {

/// One position of a sort key.
pub type Token = (u32, u64);

/// Whether token `a` comes strictly before token `b`.
pub open spec fn token_before(a: Token, b: Token) -> bool {
    a.0 < b.0 || (a.0 == b.0 && a.1 < b.1)
}

/// Whether key `a` comes before key `b` or equals it.
pub open spec fn key_le(a: Seq<Token>, b: Seq<Token>) -> bool
    decreases a.len(),
{
    if a.len() == 0 {
        true
    } else if b.len() == 0 {
        false
    } else if a[0] != b[0] {
        token_before(a[0], b[0])
    } else {
        key_le(a.drop_first(), b.drop_first())
    }
}

/// Any two keys can be compared.
pub proof fn lemma_key_total(a: Seq<Token>, b: Seq<Token>)
    ensures
        key_le(a, b) || key_le(b, a),
    decreases a.len(),
{
    if a.len() > 0 && b.len() > 0 && a[0] == b[0] {
        lemma_key_total(a.drop_first(), b.drop_first());
    }
}

/// The order on keys is transitive.
pub proof fn lemma_key_transitive(a: Seq<Token>, b: Seq<Token>, c: Seq<Token>)
    requires
        key_le(a, b),
        key_le(b, c),
    ensures
        key_le(a, c),
    decreases a.len(),
{
    if a.len() > 0 && b.len() > 0 && c.len() > 0 && a[0] == b[0] && b[0] == c[0] {
        lemma_key_transitive(a.drop_first(), b.drop_first(), c.drop_first());
    }
}

/// Two keys that come before one another are the same key.
pub proof fn lemma_key_antisymmetric(a: Seq<Token>, b: Seq<Token>)
    requires
        key_le(a, b),
        key_le(b, a),
    ensures
        a == b,
    decreases a.len(),
{
    if a.len() > 0 && b.len() > 0 {
        if a[0] == b[0] {
            lemma_key_antisymmetric(a.drop_first(), b.drop_first());
            assert(a == seq![a[0]] + a.drop_first());
            assert(b == seq![b[0]] + b.drop_first());
        }
    } else {
        assert(a == b);
    }
}

/// Whether key `a` comes before key `b` or equals it.
pub fn key_not_after(a: &Vec<Token>, b: &Vec<Token>) -> (r: bool)
    ensures
        r == key_le(a@, b@),
{
    let mut i: usize = 0;
    assert(a@.skip(0) == a@);
    assert(b@.skip(0) == b@);
    while i < a.len() && i < b.len()
        invariant
            i <= a.len(),
            i <= b.len(),
            key_le(a@, b@) == key_le(a@.skip(i as int), b@.skip(i as int)),
        decreases a.len() - i,
    {
        let x = a[i];
        let y = b[i];
        if x.0 != y.0 {
            return x.0 < y.0;
        }
        if x.1 != y.1 {
            return x.1 < y.1;
        }
        assert(a@.skip(i as int).drop_first() == a@.skip(i + 1));
        assert(b@.skip(i as int).drop_first() == b@.skip(i + 1));
        i = i + 1;
    }
    i == a.len()
}

// ------------------------------------------------------------------
// Keys of text
// ------------------------------------------------------------------

/// The key that orders text by its characters.
pub open spec fn plain_key(s: Seq<char>) -> Seq<Token> {
    s.map_values(|c: char| (c as u32, 0u64))
}

/// Whether `a` comes before `b` or equals it, character by character.
pub open spec fn text_le(a: Seq<char>, b: Seq<char>) -> bool {
    key_le(plain_key(a), plain_key(b))
}

/// The key that orders text by its characters.
pub fn plain_key_of(s: &str) -> (r: Vec<Token>)
    ensures
        r@ == plain_key(s@),
{
    let v = chars_of(s);
    let mut out: Vec<Token> = Vec::new();
    let mut i: usize = 0;
    while i < v.len()
        invariant
            v@ == s@,
            i <= v.len(),
            out@ == plain_key(s@).take(i as int),
        decreases v.len() - i,
    {
        out.push((v[i] as u32, 0u64));
        i = i + 1;
        assert(plain_key(s@).take(i as int) == plain_key(s@).take(i - 1).push(plain_key(s@)[i - 1]));
    }
    assert(plain_key(s@).take(i as int) == plain_key(s@));
    out
}

/// Different texts have different plain keys.
pub proof fn lemma_plain_key_injective(a: Seq<char>, b: Seq<char>)
    requires
        plain_key(a) == plain_key(b),
    ensures
        a == b,
{
    assert(plain_key(a).len() == a.len());
    assert(plain_key(b).len() == b.len());
    assert forall|i: int| 0 <= i < a.len() implies a[i] == b[i] by {
        assert(plain_key(a)[i] == (a[i] as u32, 0u64));
        assert(plain_key(b)[i] == (b[i] as u32, 0u64));
        vstd::utf8::char_u32_cast(a[i], a[i] as u32);
        vstd::utf8::char_u32_cast(b[i], b[i] as u32);
    }
    assert(a =~= b);
}

/// The number of digits that `s` begins with.
pub open spec fn digit_run(s: Seq<char>) -> nat
    decreases s.len(),
{
    if s.len() > 0 && is_digit(s[0]) {
        1 + digit_run(s.drop_first())
    } else {
        0
    }
}

/// The number of zeros that `s` begins with.
pub open spec fn zero_run(s: Seq<char>) -> nat
    decreases s.len(),
{
    if s.len() > 0 && s[0] == '0' {
        1 + zero_run(s.drop_first())
    } else {
        0
    }
}

proof fn lemma_digit_run_bound(s: Seq<char>)
    ensures
        digit_run(s) <= s.len(),
        zero_run(s) <= digit_run(s),
    decreases s.len(),
{
    if s.len() > 0 {
        lemma_digit_run_bound(s.drop_first());
    }
}

/// The key that orders names as a reader expects: a run of digits counts by
/// its value (by the number of its significant digits, then by them), and
/// letters count without ASCII case.
pub open spec fn natural_key(s: Seq<char>) -> Seq<Token>
    decreases s.len(),
{
    if s.len() == 0 {
        Seq::<Token>::empty()
    } else if is_digit(s[0]) {
        let n = digit_run(s) as int;
        let z = zero_run(s) as int;
        if 1 <= n <= s.len() && z <= n {
            seq![('0' as u32, (n - z) as u64)] + plain_key(s.subrange(z, n)) + natural_key(
                s.skip(n),
            )
        } else {
            Seq::<Token>::empty()
        }
    } else {
        seq![(lower_char(s[0]) as u32, 0u64)] + natural_key(s.drop_first())
    }
}

/// The key that orders names as a reader expects.
pub fn natural_key_of(s: &str) -> (r: Vec<Token>)
    ensures
        r@ == natural_key(s@),
{
    let v = chars_of(s);
    let mut out: Vec<Token> = Vec::new();
    let mut i: usize = 0;
    assert(s@.skip(0) == s@);
    assert(out@ + natural_key(s@) == natural_key(s@));
    while i < v.len()
        invariant
            v@ == s@,
            i <= v.len(),
            out@ + natural_key(s@.skip(i as int)) == natural_key(s@),
        decreases v.len() - i,
    {
        let ghost rest = s@.skip(i as int);
        let ghost before = out@;
        if v[i] >= '0' && v[i] <= '9' {
            let mut z: usize = i;
            while z < v.len() && v[z] == '0'
                invariant
                    v@ == s@,
                    rest == s@.skip(i as int),
                    i <= z <= v.len(),
                    zero_run(rest) == (z - i) + zero_run(s@.skip(z as int)),
                decreases v.len() - z,
            {
                assert(s@.skip(z as int).drop_first() == s@.skip(z + 1));
                z = z + 1;
            }
            let mut n: usize = i;
            while n < v.len() && v[n] >= '0' && v[n] <= '9'
                invariant
                    v@ == s@,
                    rest == s@.skip(i as int),
                    i <= n <= v.len(),
                    digit_run(rest) == (n - i) + digit_run(s@.skip(n as int)),
                decreases v.len() - n,
            {
                assert(s@.skip(n as int).drop_first() == s@.skip(n + 1));
                n = n + 1;
            }
            proof {
                lemma_digit_run_bound(rest);
                assert(digit_run(rest) == n - i);
                assert(zero_run(rest) == z - i);
                assert(rest[0] == s@[i as int]);
                assert(rest.drop_first().len() < rest.len());
                assert(digit_run(rest) >= 1);
            }
            out.push(('0' as u32, (n - z) as u64));
            let ghost head = out@;
            let ghost sig = plain_key(rest.subrange(z - i, n - i));
            let mut k: usize = z;
            while k < n
                invariant
                    v@ == s@,
                    rest == s@.skip(i as int),
                    i <= z <= k <= n <= v.len(),
                    sig == plain_key(rest.subrange(z - i, n - i)),
                    out@ == head + sig.take(k - z),
                decreases n - k,
            {
                out.push((v[k] as u32, 0u64));
                assert(sig[k - z] == (rest[k - i] as u32, 0u64));
                k = k + 1;
                assert(sig.take(k - z) == sig.take(k - z - 1).push(sig[k - z - 1]));
            }
            assert(sig.take(n - z) == sig);
            assert(rest.skip(n - i) == s@.skip(n as int));
            assert(out@ + natural_key(s@.skip(n as int)) == before + natural_key(rest));
            i = n;
        } else {
            out.push((ascii_lower_char(v[i]) as u32, 0u64));
            assert(rest.drop_first() == s@.skip(i + 1));
            assert(out@ + natural_key(s@.skip(i + 1)) == before + natural_key(rest));
            i = i + 1;
        }
    }
    assert(out@ + natural_key(s@.skip(i as int)) == out@);
    out
}

// ------------------------------------------------------------------
// Stable order
// ------------------------------------------------------------------

/// The keys as sequences.
pub open spec fn keys_of(keys: Seq<Vec<Token>>) -> Seq<Seq<Token>> {
    Seq::new(keys.len(), |i: int| keys[i]@)
}

/// Whether position `i` comes before position `j`: the smaller key first,
/// and of two positions with one key the earlier one.
pub open spec fn ranked_before(keys: Seq<Seq<Token>>, i: int, j: int) -> bool {
    key_le(keys[i], keys[j]) && (key_le(keys[j], keys[i]) ==> i < j)
}

/// Whether `order` lists the positions below `n` once each, every one ahead
/// of those that it comes before.
pub open spec fn stable_order_of(order: Seq<usize>, keys: Seq<Seq<Token>>, n: int) -> bool {
    &&& order.len() == n
    &&& forall|i: int| 0 <= i < n ==> #[trigger] order[i] < n
    &&& forall|i: int, j: int|
        0 <= i < j < n ==> #[trigger] order[i] != #[trigger] order[j] && ranked_before(
            keys,
            order[i] as int,
            order[j] as int,
        )
}

/// The positions of `keys` in stable order.
pub open spec fn the_order(keys: Seq<Seq<Token>>) -> Seq<usize> {
    choose|order: Seq<usize>| stable_order_of(order, keys, keys.len() as int)
}

/// The positions of `keys` in stable order.
pub fn stable_order(keys: &Vec<Vec<Token>>) -> (order: Vec<usize>)
    ensures
        order@ == the_order(keys_of(keys@)),
        stable_order_of(order@, keys_of(keys@), keys@.len() as int),
{
    let ghost ks = keys_of(keys@);
    let mut order: Vec<usize> = Vec::new();
    let mut k: usize = 0;
    while k < keys.len()
        invariant
            ks == keys_of(keys@),
            k <= keys.len(),
            stable_order_of(order@, ks, k as int),
        decreases keys.len() - k,
    {
        let mut p: usize = order.len();
        while p > 0 && !key_not_after(&keys[order[p - 1]], &keys[k])
            invariant
                ks == keys_of(keys@),
                k < keys.len(),
                stable_order_of(order@, ks, k as int),
                p <= order.len(),
                forall|q: int|
                    p <= q < order.len() ==> !key_le(ks[#[trigger] order@[q] as int], ks[k as int]),
            decreases p,
        {
            assert(order@[p - 1] < k);
            assert(keys@[order@[p - 1] as int]@ == ks[order@[p - 1] as int]);
            p = p - 1;
        }
        let ghost before = order@;
        if p > 0 {
            assert(before[p - 1] < k);
            assert(keys@[before[p - 1] as int]@ == ks[before[p - 1] as int]);
            assert(key_le(ks[before[p - 1] as int], ks[k as int]));
        }
        order.insert(p, k);
        proof {
            assert forall|i: int, j: int| 0 <= i < j < k + 1 implies #[trigger] order@[i]
                != #[trigger] order@[j] && ranked_before(ks, order@[i] as int, order@[j] as int) by {
                if j < p {
                    assert(order@[i] == before[i] && order@[j] == before[j]);
                } else if j == p {
                    assert(order@[i] == before[i]);
                    if i < p - 1 {
                        assert(ranked_before(ks, before[i] as int, before[p - 1] as int));
                        lemma_key_transitive(
                            ks[before[i] as int],
                            ks[before[p - 1] as int],
                            ks[k as int],
                        );
                    }
                } else if i < p {
                    assert(order@[i] == before[i] && order@[j] == before[j - 1]);
                } else if i == p {
                    assert(order@[j] == before[j - 1]);
                    lemma_key_total(ks[before[j - 1] as int], ks[k as int]);
                } else {
                    assert(order@[i] == before[i - 1] && order@[j] == before[j - 1]);
                }
            }
            assert forall|i: int| 0 <= i < k + 1 implies #[trigger] order@[i] < k + 1 by {
                if i < p {
                    assert(order@[i] == before[i]);
                } else if i > p {
                    assert(order@[i] == before[i - 1]);
                }
            }
        }
        k = k + 1;
    }
    proof {
        law_stable_order_unique(order@, the_order(ks), ks, ks.len() as int);
    }
    order
}

/// The natural keys of a list of names.
pub open spec fn natural_keys(names: Seq<Seq<char>>) -> Seq<Seq<Token>> {
    names.map_values(|s: Seq<char>| natural_key(s))
}

/// The plain keys of a list of texts.
pub open spec fn plain_keys(names: Seq<Seq<char>>) -> Seq<Seq<Token>> {
    names.map_values(|s: Seq<char>| plain_key(s))
}

/// Whether `sorted` is `v` in the stable order of its texts.
pub open spec fn is_sorted_copy(sorted: Seq<String>, v: Seq<String>) -> bool {
    let order = the_order(plain_keys(texts(v)));
    &&& sorted.len() == v.len()
    &&& order.len() == v.len()
    &&& forall|k: int| 0 <= k < v.len() ==> #[trigger] sorted[k] == v[order[k] as int]
}

/// The texts of `v` in stable order.
pub open spec fn sorted_texts(v: Seq<Seq<char>>) -> Seq<Seq<char>> {
    Seq::new(v.len(), |k: int| v[the_order(plain_keys(v))[k] as int])
}

/// Sorts texts character by character.
pub fn sort_texts(v: &Vec<String>) -> (r: Vec<String>)
    ensures
        is_sorted_copy(r@, v@),
        texts(r@) == sorted_texts(texts(v@)),
        stable_order_of(the_order(plain_keys(texts(v@))), plain_keys(texts(v@)), v@.len() as int),
{
    let ghost keys = plain_keys(texts(v@));
    let mut list: Vec<Vec<Token>> = Vec::new();
    let mut i: usize = 0;
    while i < v.len()
        invariant
            keys == plain_keys(texts(v@)),
            i <= v.len(),
            list.len() == i,
            forall|j: int| 0 <= j < i ==> (#[trigger] list@[j])@ == keys[j],
        decreases v.len() - i,
    {
        let key = plain_key_of(v[i].as_str());
        assert(keys[i as int] == key@);
        list.push(key);
        i = i + 1;
    }
    assert(keys_of(list@) =~= keys);
    let order = stable_order(&list);
    let mut out: Vec<String> = Vec::new();
    let mut k: usize = 0;
    while k < order.len()
        invariant
            order@ == the_order(keys),
            stable_order_of(order@, keys, v@.len() as int),
            k <= order.len(),
            out.len() == k,
            forall|j: int| 0 <= j < k ==> #[trigger] out@[j] == v@[order@[j] as int],
        decreases order.len() - k,
    {
        assert(order@[k as int] < v@.len());
        out.push(v[order[k]].clone());
        k = k + 1;
    }
    proof {
        assert forall|j: int| 0 <= j < v@.len() implies texts(out@)[j] == sorted_texts(
            texts(v@),
        )[j] by {
            assert(out@[j] == v@[order@[j] as int]);
            assert(order@[j] < v@.len());
        }
        assert(texts(out@) =~= sorted_texts(texts(v@)));
    }
    out
}

/// A sorted copy is in order, and holds the same texts.
pub proof fn lemma_sorted_copy(sorted: Seq<String>, v: Seq<String>)
    requires
        is_sorted_copy(sorted, v),
        stable_order_of(the_order(plain_keys(texts(v))), plain_keys(texts(v)), v.len() as int),
    ensures
        forall|i: int, j: int|
            0 <= i < j < sorted.len() ==> text_le(
                #[trigger] sorted[i]@,
                #[trigger] sorted[j]@,
            ),
        set_of(sorted) == set_of(v),
        all_differ(v) ==> all_differ(sorted),
{
    let keys = plain_keys(texts(v));
    let order = the_order(keys);
    assert forall|i: int, j: int| 0 <= i < j < sorted.len() implies text_le(
        #[trigger] sorted[i]@,
        #[trigger] sorted[j]@,
    ) by {
        let a = order[i] as int;
        let b = order[j] as int;
        assert(ranked_before(keys, a, b));
        assert(keys[a] == plain_key(v[a]@));
        assert(keys[b] == plain_key(v[b]@));
    }
    assert forall|x: Seq<char>| #[trigger] set_of(sorted).contains(x) <==> set_of(v).contains(x) by {
        if set_of(sorted).contains(x) {
            let k = choose|k: int| 0 <= k < sorted.len() && #[trigger] sorted[k]@ == x;
            assert(order[k] < v.len());
            assert(v[order[k] as int]@ == x);
        }
        if set_of(v).contains(x) {
            let i = choose|i: int| 0 <= i < v.len() && #[trigger] v[i]@ == x;
            lemma_stable_order_reaches(order, keys, v.len() as int, i);
            let k = choose|k: int| 0 <= k < order.len() && order[k] == i;
            assert(sorted[k]@ == x);
        }
    }
    assert(set_of(sorted) =~= set_of(v));
    if all_differ(v) {
        assert forall|i: int, j: int| 0 <= i < j < sorted.len() implies #[trigger] sorted[i]@
            != #[trigger] sorted[j]@ by {
            let a = order[i] as int;
            let b = order[j] as int;
            assert(a != b);
            if a < b {
                assert(v[a]@ != v[b]@);
            } else {
                assert(v[b]@ != v[a]@);
            }
        }
    }
}

proof fn lemma_stable_order_reaches(order: Seq<usize>, keys: Seq<Seq<Token>>, n: int, i: int)
    requires
        stable_order_of(order, keys, n),
        0 <= i < n,
    ensures
        exists|k: int| 0 <= k < order.len() && order[k] == i,
{
    if i <= usize::MAX {
        lemma_stable_order_complete(order, keys, n, i as usize);
        let k = choose|k: int| 0 <= k < order.len() && order[k] == i as usize;
        assert(order[k] == i);
    } else {
        lemma_order_is_small(order, keys, n);
    }
}

proof fn lemma_order_is_small(order: Seq<usize>, keys: Seq<Seq<Token>>, n: int)
    requires
        stable_order_of(order, keys, n),
        n >= 0,
    ensures
        n <= usize::MAX + 1,
{
    let mapped = order.map_values(|v: usize| v as int);
    let bound = usize::MAX as int + 1;
    let range = vstd::set_lib::set_int_range(0, bound);
    assert(mapped.no_duplicates()) by {
        assert forall|i: int, j: int|
            0 <= i < mapped.len() && 0 <= j < mapped.len() && i != j implies mapped[i]
            != mapped[j] by {
            if i < j {
                assert(order[i] != order[j]);
            } else {
                assert(order[j] != order[i]);
            }
        }
    }
    mapped.unique_seq_to_set();
    vstd::set_lib::lemma_int_range(0, bound);
    assert(mapped.to_set().subset_of(range));
    vstd::set_lib::lemma_len_subset(mapped.to_set(), range);
}

/// Every position below `n` is listed by a stable order of `n` keys.
pub proof fn lemma_stable_order_complete(
    order: Seq<usize>,
    keys: Seq<Seq<Token>>,
    n: int,
    x: usize,
)
    requires
        stable_order_of(order, keys, n),
        x < n,
    ensures
        order.contains(x),
{
    let range = vstd::set_lib::set_int_range(0, n);
    let mapped = order.map_values(|v: usize| v as int);
    assert(mapped.no_duplicates()) by {
        assert forall|i: int, j: int|
            0 <= i < mapped.len() && 0 <= j < mapped.len() && i != j implies mapped[i]
            != mapped[j] by {
            if i < j {
                assert(order[i] != order[j]);
            } else {
                assert(order[j] != order[i]);
            }
        }
    }
    mapped.unique_seq_to_set();
    vstd::set_lib::lemma_int_range(0, n);
    assert(mapped.to_set().subset_of(range)) by {
        assert forall|v: int| mapped.to_set().contains(v) implies range.contains(v) by {
            let i = choose|i: int| 0 <= i < mapped.len() && mapped[i] == v;
            assert(order[i] < n);
        }
    }
    vstd::set_lib::lemma_subset_equality(mapped.to_set(), range);
    assert(range.contains(x as int));
    assert(mapped.to_set().contains(x as int));
    let i = choose|i: int| 0 <= i < mapped.len() && mapped[i] == x as int;
    assert(order[i] == x);
}

/// Of one list of keys there is only one stable order.
pub proof fn law_stable_order_unique(
    a: Seq<usize>,
    b: Seq<usize>,
    keys: Seq<Seq<Token>>,
    n: int,
)
    requires
        stable_order_of(a, keys, n),
        stable_order_of(b, keys, n),
        0 <= n,
    ensures
        a == b,
{
    assert forall|m: int| 0 <= m <= n implies a.take(m) == b.take(m) by {
        lemma_stable_prefix_unique(a, b, keys, n, m);
    }
    assert(a.take(n) == a && b.take(n) == b);
}

proof fn lemma_stable_prefix_unique(
    a: Seq<usize>,
    b: Seq<usize>,
    keys: Seq<Seq<Token>>,
    n: int,
    m: int,
)
    requires
        stable_order_of(a, keys, n),
        stable_order_of(b, keys, n),
        0 <= m <= n,
    ensures
        a.take(m) == b.take(m),
    decreases m,
{
    if m > 0 {
        lemma_stable_prefix_unique(a, b, keys, n, m - 1);
        let x = a[m - 1];
        let y = b[m - 1];
        if x != y {
            lemma_stable_order_complete(b, keys, n, x);
            lemma_stable_order_complete(a, keys, n, y);
            let i = choose|i: int| 0 <= i < b.len() && b[i] == x;
            let j = choose|j: int| 0 <= j < a.len() && a[j] == y;
            if i < m - 1 {
                assert(a.take(m - 1)[i] == b.take(m - 1)[i]);
                assert(a[i] == x);
                assert(a[i] != a[m - 1]);
            }
            if j < m - 1 {
                assert(a.take(m - 1)[j] == b.take(m - 1)[j]);
                assert(b[j] == y);
                assert(b[j] != b[m - 1]);
            }
            assert(i > m - 1 && j > m - 1);
            assert(ranked_before(keys, a[m - 1] as int, a[j] as int));
            assert(ranked_before(keys, b[m - 1] as int, b[i] as int));
            assert(false);
        }
        assert(a.take(m) == a.take(m - 1).push(x));
        assert(b.take(m) == b.take(m - 1).push(y));
    } else {
        assert(a.take(0) == b.take(0));
    }
}

/// Every list of keys has a stable order.
pub proof fn lemma_stable_order_exists(keys: Seq<Seq<Token>>)
    requires
        keys.len() <= usize::MAX,
    ensures
        stable_order_of(the_order(keys), keys, keys.len() as int),
{
    let order = lemma_stable_order_of_first(keys, keys.len() as int);
    assert(stable_order_of(order, keys, keys.len() as int));
}

proof fn lemma_stable_order_of_first(keys: Seq<Seq<Token>>, n: int) -> (order: Seq<usize>)
    requires
        0 <= n <= keys.len() <= usize::MAX,
    ensures
        stable_order_of(order, keys, n),
    decreases n,
{
    if n == 0 {
        Seq::<usize>::empty()
    } else {
        let before = lemma_stable_order_of_first(keys, n - 1);
        let last = (n - 1) as usize;
        let p = lemma_place_for(before, keys, n - 1);
        let order = before.insert(p, last);
        assert forall|i: int| 0 <= i < n implies #[trigger] order[i] < n by {
            if i < p {
                assert(order[i] == before[i]);
            } else if i > p {
                assert(order[i] == before[i - 1]);
            }
        }
        assert forall|i: int, j: int| 0 <= i < j < n implies #[trigger] order[i]
            != #[trigger] order[j] && ranked_before(
            keys,
            order[i] as int,
            order[j] as int,
        ) by {
            let a = if i < p {
                i
            } else {
                i - 1
            };
            let b = if j < p {
                j
            } else {
                j - 1
            };
            if i != p {
                assert(order[i] == before[a]);
                assert(before[a] < n - 1);
            }
            if j != p {
                assert(order[j] == before[b]);
                assert(before[b] < n - 1);
            }
            if j == p {
                assert(key_le(keys[before[a] as int], keys[n - 1]));
            } else if i == p {
                lemma_key_total(keys[n - 1], keys[before[b] as int]);
                assert(!key_le(keys[before[b] as int], keys[n - 1]));
            } else {
                assert(before[a] != before[b]);
            }
        }
        order
    }
}

/// Where the next position is put into a stable order: behind all whose keys
/// do not come after its own.
proof fn lemma_place_for(order: Seq<usize>, keys: Seq<Seq<Token>>, n: int) -> (p: int)
    requires
        0 <= n < keys.len(),
        stable_order_of(order, keys, n),
    ensures
        0 <= p <= n,
        forall|k: int|
            0 <= k < p ==> key_le(keys[#[trigger] order[k] as int], keys[n]),
        forall|k: int|
            p <= k < n ==> !key_le(keys[#[trigger] order[k] as int], keys[n]),
{
    lemma_place_among(order, keys, n, n)
}

proof fn lemma_place_among(order: Seq<usize>, keys: Seq<Seq<Token>>, n: int, m: int) -> (p: int)
    requires
        0 <= m <= n < keys.len(),
        stable_order_of(order, keys, n),
    ensures
        0 <= p <= m,
        forall|k: int|
            0 <= k < p ==> key_le(keys[#[trigger] order[k] as int], keys[n]),
        forall|k: int|
            p <= k < m ==> !key_le(keys[#[trigger] order[k] as int], keys[n]),
    decreases m,
{
    if m == 0 {
        0
    } else if key_le(keys[order[m - 1] as int], keys[n]) {
        assert forall|k: int| 0 <= k < m implies key_le(
            keys[#[trigger] order[k] as int],
            keys[n],
        ) by {
            if k < m - 1 {
                assert(order[k] != order[m - 1]);
                assert(ranked_before(keys, order[k] as int, order[m - 1] as int));
                lemma_key_transitive(
                    keys[order[k] as int],
                    keys[order[m - 1] as int],
                    keys[n],
                );
            }
        }
        m
    } else {
        lemma_place_among(order, keys, n, m - 1)
    }
}

/// A list in another order holds the same elements as often.
pub proof fn lemma_reordered_multiset(order: Seq<usize>, v: Seq<Seq<char>>)
    requires
        v.len() <= usize::MAX,
        order.len() == v.len(),
        forall|i: int| 0 <= i < v.len() ==> #[trigger] order[i] < v.len(),
        forall|i: int, j: int|
            0 <= i < j < v.len() ==> #[trigger] order[i] != #[trigger] order[j],
        forall|x: usize| x < v.len() ==> order.contains(x),
    ensures
        Seq::new(v.len(), |k: int| v[order[k] as int]).to_multiset() == v.to_multiset(),
    decreases v.len(),
{
    broadcast use vstd::multiset::group_multiset_axioms;

    let s = Seq::new(v.len(), |k: int| v[order[k] as int]);
    if v.len() == 0 {
        assert(s =~= v);
    } else {
        let last = (v.len() - 1) as usize;
        assert(order[0] < v.len());
        assert(last < v.len());
        assert(order.contains(last));
        let at = choose|at: int| 0 <= at < order.len() && order[at] == last;
        let rest = order.remove(at);
        let front = v.drop_last();
        assert forall|i: int| 0 <= i < front.len() implies #[trigger] rest[i] < front.len() by {
            let from = if i < at {
                i
            } else {
                i + 1
            };
            assert(rest[i] == order[from]);
            assert(order[from] != order[at]);
        }
        assert forall|i: int, j: int| 0 <= i < j < front.len() implies #[trigger] rest[i]
            != #[trigger] rest[j] by {
            let a = if i < at {
                i
            } else {
                i + 1
            };
            let b = if j < at {
                j
            } else {
                j + 1
            };
            assert(rest[i] == order[a] && rest[j] == order[b]);
        }
        assert forall|x: usize| x < front.len() implies rest.contains(x) by {
            assert(order.contains(x));
            let k = choose|k: int| 0 <= k < order.len() && order[k] == x;
            let to = if k < at {
                k
            } else {
                k - 1
            };
            assert(rest[to] == x);
        }
        lemma_reordered_multiset(rest, front);
        let shorter = Seq::new(front.len(), |k: int| front[rest[k] as int]);
        assert(shorter =~= s.remove(at)) by {
            assert forall|k: int| 0 <= k < front.len() implies shorter[k] == s.remove(at)[k] by {
                assert(rest[k] < front.len());
            }
        }
        vstd::seq_lib::to_multiset_remove(s, at);
        vstd::seq_lib::to_multiset_build(front, v.last());
        assert(front.push(v.last()) =~= v);
        vstd::seq_lib::to_multiset_contains(s, s[at]);
        assert(s[at] == v.last());
        assert(s.to_multiset() =~= s.to_multiset().remove(s[at]).insert(s[at]));
    }
}

/// A list that is sorted holds the same texts as often, in order.
proof fn lemma_sorted_texts(v: Seq<Seq<char>>)
    requires
        v.len() <= usize::MAX,
    ensures
        sorted_texts(v).to_multiset() == v.to_multiset(),
        forall|i: int, j: int|
            0 <= i < j < v.len() ==> text_le(
                #[trigger] sorted_texts(v)[i],
                #[trigger] sorted_texts(v)[j],
            ),
{
    let keys = plain_keys(v);
    let order = the_order(keys);
    lemma_stable_order_exists(keys);
    assert forall|x: usize| x < v.len() implies order.contains(x) by {
        lemma_stable_order_complete(order, keys, v.len() as int, x);
    }
    lemma_reordered_multiset(order, v);
    assert(sorted_texts(v) =~= Seq::new(v.len(), |k: int| v[order[k] as int]));
    assert forall|i: int, j: int| 0 <= i < j < v.len() implies text_le(
        #[trigger] sorted_texts(v)[i],
        #[trigger] sorted_texts(v)[j],
    ) by {
        assert(order[i] != order[j]);
        assert(ranked_before(keys, order[i] as int, order[j] as int));
        assert(keys[order[i] as int] == plain_key(v[order[i] as int]));
        assert(keys[order[j] as int] == plain_key(v[order[j] as int]));
    }
}

/// Sorting forgets the order in which texts were listed.
pub proof fn law_sorting_forgets_the_order(a: Seq<Seq<char>>, b: Seq<Seq<char>>)
    requires
        a.len() <= usize::MAX,
        a.to_multiset() == b.to_multiset(),
    ensures
        sorted_texts(a) == sorted_texts(b),
{
    vstd::seq_lib::to_multiset_len(a);
    vstd::seq_lib::to_multiset_len(b);
    lemma_sorted_texts(a);
    lemma_sorted_texts(b);
    let le = |x: Seq<char>, y: Seq<char>| text_le(x, y);
    assert forall|x: Seq<char>| #[trigger] le(x, x) by {
        lemma_key_total(plain_key(x), plain_key(x));
    }
    assert forall|x: Seq<char>, y: Seq<char>| #[trigger] le(x, y) && #[trigger] le(
        y,
        x,
    ) implies x == y by {
        lemma_key_antisymmetric(plain_key(x), plain_key(y));
        lemma_plain_key_injective(x, y);
    }
    assert forall|x: Seq<char>, y: Seq<char>, z: Seq<char>| #[trigger] le(x, y) && #[trigger] le(
        y,
        z,
    ) implies le(x, z) by {
        lemma_key_transitive(plain_key(x), plain_key(y), plain_key(z));
    }
    assert forall|x: Seq<char>, y: Seq<char>| #[trigger] le(x, y) || #[trigger] le(y, x) by {
        lemma_key_total(plain_key(x), plain_key(y));
    }
    vstd::seq_lib::lemma_sorted_unique(sorted_texts(a), sorted_texts(b), le);
}

// ------------------------------------------------------------------
// Numbers in names
// ------------------------------------------------------------------

proof fn lemma_pow_grows(m: nat, n: nat)
    requires
        m <= n,
    ensures
        0 < pow(10, m) <= pow(10, n),
    decreases n - m,
{
    vstd::arithmetic::power::lemma_pow_positive(10, m);
    if m < n {
        lemma_pow_grows(m, (n - 1) as nat);
        assert(pow(10, n) == 10 * pow(10, (n - 1) as nat)) by {
            reveal(pow);
        }
    }
}

/// The value of digits, by the first of them.
proof fn lemma_value_by_first(s: Seq<char>)
    requires
        s.len() > 0,
        all_digits(s),
    ensures
        digits_value(s) == (s[0] as int - '0' as int) * pow(10, (s.len() - 1) as nat)
            + digits_value(s.drop_first()),
        digits_value(s) < pow(10, s.len()),
    decreases s.len(),
{
    assert(is_digit(s[0]));
    assert(is_digit(s[s.len() - 1]));
    let d = s[0] as int - '0' as int;
    let e = s.last() as int - '0' as int;
    if s.len() == 1 {
        assert(s.drop_last() =~= Seq::<char>::empty());
        assert(s.drop_first() =~= Seq::<char>::empty());
        assert(digits_value(s.drop_last()) == 0);
        assert(pow(10, 0) == 1 && pow(10, 1) == 10) by {
            reveal_with_fuel(pow, 2);
        }
        assert(digits_value(s) == e);
        assert((s.len() - 1) as nat == 0);
        assert(d * pow(10, (s.len() - 1) as nat) == d) by (nonlinear_arith)
            requires
                pow(10, (s.len() - 1) as nat) == 1,
        ;
    } else {
        let head = s.drop_last();
        let tail = s.drop_first();
        assert(all_digits(head)) by {
            assert forall|i: int| 0 <= i < head.len() implies is_digit(#[trigger] head[i]) by {
                assert(is_digit(s[i]));
            }
        }
        lemma_value_by_first(head);
        assert(head.drop_first() =~= tail.drop_last());
        assert(tail.last() == s.last());
        assert(digits_value(tail) == digits_value(tail.drop_last()) * 10 + e);
        let n = (s.len() - 2) as nat;
        assert(pow(10, n + 1) == 10 * pow(10, n) && pow(10, n + 2) == 10 * pow(10, n + 1)) by {
            reveal(pow);
        }
        let w = pow(10, n);
        let v = digits_value(head.drop_first()) as int;
        assert((d * w + v) * 10 + e == d * (10 * w) + (v * 10 + e)) by (nonlinear_arith);
        assert(digits_value(s) == digits_value(head) * 10 + e);
        assert(head[0] == s[0]);
        assert(digits_value(head) == d * w + v);
        assert((s.len() - 1) as nat == n + 1);
        assert(d * pow(10, n + 1) == d * (10 * w));
    }
}

proof fn lemma_leading_zeros_do_not_count(s: Seq<char>)
    requires
        all_digits(s),
    ensures
        zero_run(s) <= s.len(),
        all_digits(s.skip(zero_run(s) as int)),
        digits_value(s.skip(zero_run(s) as int)) == digits_value(s),
        zero_run(s) < s.len() ==> s[zero_run(s) as int] != '0',
    decreases s.len(),
{
    if s.len() > 0 && s[0] == '0' {
        let rest = s.drop_first();
        assert(all_digits(rest)) by {
            assert forall|i: int| 0 <= i < rest.len() implies is_digit(#[trigger] rest[i]) by {
                assert(is_digit(s[i + 1]));
            }
        }
        lemma_leading_zeros_do_not_count(rest);
        lemma_value_by_first(s);
        let z = zero_run(rest) as int;
        assert(rest.skip(z) =~= s.skip(z + 1));
        assert(0 * pow(10, (s.len() - 1) as nat) == 0);
        if z < rest.len() {
            assert(rest[z] == s[z + 1]);
        }
    } else {
        assert(s.skip(0) =~= s);
    }
}

proof fn lemma_runs_of(a: Seq<char>, t: Seq<char>)
    requires
        all_digits(a),
        t.len() > 0 ==> !is_digit(t[0]),
    ensures
        digit_run(a + t) == a.len(),
        zero_run(a + t) == zero_run(a),
    decreases a.len(),
{
    if a.len() > 0 {
        assert(is_digit(a[0]));
        let rest = a.drop_first();
        assert(all_digits(rest)) by {
            assert forall|i: int| 0 <= i < rest.len() implies is_digit(#[trigger] rest[i]) by {
                assert(is_digit(a[i + 1]));
            }
        }
        lemma_runs_of(rest, t);
        assert((a + t).drop_first() =~= rest + t);
        assert((a + t)[0] == a[0]);
    } else {
        assert(a + t =~= t);
    }
}

proof fn lemma_key_of_run(a: Seq<char>, t: Seq<char>)
    requires
        a.len() > 0,
        all_digits(a),
        t.len() > 0 ==> !is_digit(t[0]),
    ensures
        natural_key(a + t) == seq![('0' as u32, (a.len() - zero_run(a)) as u64)] + plain_key(
            a.skip(zero_run(a) as int),
        ) + natural_key(t),
{
    let s = a + t;
    let z = zero_run(a) as int;
    let n = a.len() as int;
    lemma_runs_of(a, t);
    lemma_leading_zeros_do_not_count(a);
    assert(is_digit(a[0]));
    assert(s[0] == a[0]);
    assert(s.subrange(z, n) =~= a.skip(z));
    assert(s.skip(n) =~= t);
}

/// The natural key of two texts behind one another, where no run of digits
/// goes across.
proof fn lemma_key_of_both(p: Seq<char>, x: Seq<char>)
    requires
        p.len() > 0 && x.len() > 0 ==> !(is_digit(p.last()) && is_digit(x[0])),
    ensures
        natural_key(p + x) == natural_key(p) + natural_key(x),
    decreases p.len(),
{
    let s = p + x;
    if p.len() == 0 {
        assert(s =~= x);
        assert(natural_key(p) + natural_key(x) =~= natural_key(x));
    } else if !is_digit(p[0]) {
        let rest = p.drop_first();
        if rest.len() > 0 {
            assert(rest.last() == p.last());
        }
        lemma_key_of_both(rest, x);
        assert(s.drop_first() =~= rest + x);
        assert(s[0] == p[0]);
        let head = seq![(lower_char(p[0]) as u32, 0u64)];
        assert(head + (natural_key(rest) + natural_key(x)) =~= (head + natural_key(rest))
            + natural_key(x));
    } else {
        lemma_digit_run_bound(p);
        let n = digit_run(p) as int;
        lemma_run_is_digits(p);
        let a = p.take(n);
        let rest = p.skip(n);
        assert(p =~= a + rest);
        if rest.len() > 0 {
            assert(rest.last() == p.last());
        } else {
            assert(a.last() == p.last());
            assert(is_digit(a[n - 1]));
        }
        assert(rest.len() > 0 ==> rest[0] == p[n]);
        lemma_key_of_both(rest, x);
        lemma_key_of_run(a, rest);
        assert(s =~= a + (rest + x));
        assert((rest + x).len() > 0 ==> !is_digit((rest + x)[0]));
        lemma_key_of_run(a, rest + x);
        let head = seq![('0' as u32, (a.len() - zero_run(a)) as u64)] + plain_key(
            a.skip(zero_run(a) as int),
        );
        assert(head + (natural_key(rest) + natural_key(x)) =~= (head + natural_key(rest))
            + natural_key(x));
    }
}

proof fn lemma_run_is_digits(s: Seq<char>)
    ensures
        digit_run(s) <= s.len(),
        all_digits(s.take(digit_run(s) as int)),
        digit_run(s) < s.len() ==> !is_digit(s[digit_run(s) as int]),
    decreases s.len(),
{
    if s.len() > 0 && is_digit(s[0]) {
        let rest = s.drop_first();
        lemma_run_is_digits(rest);
        let n = digit_run(rest) as int;
        assert forall|i: int| 0 <= i < n + 1 implies is_digit(#[trigger] s.take(n + 1)[i]) by {
            if i > 0 {
                assert(is_digit(rest.take(n)[i - 1]));
            }
        }
        if n < rest.len() {
            assert(rest[n] == s[n + 1]);
        }
    }
}

proof fn lemma_key_le_behind(k: Seq<Token>, a: Seq<Token>, b: Seq<Token>)
    ensures
        key_le(k + a, k + b) == key_le(a, b),
    decreases k.len(),
{
    if k.len() == 0 {
        assert(k + a =~= a && k + b =~= b);
    } else {
        lemma_key_le_behind(k.drop_first(), a, b);
        assert((k + a).drop_first() =~= k.drop_first() + a);
        assert((k + b).drop_first() =~= k.drop_first() + b);
    }
}

/// Digits of one length are compared by their values.
proof fn lemma_digits_compare(x: Seq<char>, y: Seq<char>, k: Seq<Token>)
    requires
        x.len() == y.len(),
        all_digits(x),
        all_digits(y),
    ensures
        key_le(plain_key(x) + k, plain_key(y) + k) <==> digits_value(x) <= digits_value(y),
    decreases x.len(),
{
    let kx = plain_key(x) + k;
    let ky = plain_key(y) + k;
    if x.len() == 0 {
        assert(kx =~= ky);
        lemma_key_total(kx, ky);
    } else {
        assert(is_digit(x[0]) && is_digit(y[0]));
        let rx = x.drop_first();
        let ry = y.drop_first();
        assert(all_digits(rx) && all_digits(ry)) by {
            assert forall|i: int| 0 <= i < rx.len() implies is_digit(#[trigger] rx[i]) by {
                assert(is_digit(x[i + 1]));
            }
            assert forall|i: int| 0 <= i < ry.len() implies is_digit(#[trigger] ry[i]) by {
                assert(is_digit(y[i + 1]));
            }
        }
        lemma_value_by_first(x);
        lemma_value_by_first(y);
        lemma_digits_compare(rx, ry, k);
        let n = (x.len() - 1) as nat;
        let w = pow(10, n);
        lemma_pow_grows(n, n);
        if rx.len() > 0 {
            lemma_value_by_first(rx);
            lemma_value_by_first(ry);
        } else {
            assert(digits_value(rx) == 0 && digits_value(ry) == 0);
        }
        assert(digits_value(rx) < w && digits_value(ry) < w);
        assert(kx[0] == (x[0] as u32, 0u64));
        assert(ky[0] == (y[0] as u32, 0u64));
        assert(kx.drop_first() =~= plain_key(rx) + k);
        assert(ky.drop_first() =~= plain_key(ry) + k);
        vstd::utf8::char_u32_cast(x[0], x[0] as u32);
        vstd::utf8::char_u32_cast(y[0], y[0] as u32);
        let dx = x[0] as int - '0' as int;
        let dy = y[0] as int - '0' as int;
        let vx = digits_value(rx) as int;
        let vy = digits_value(ry) as int;
        if dx < dy {
            assert(dx * w + vx < dy * w + vy) by (nonlinear_arith)
                requires
                    dx + 1 <= dy,
                    0 <= vx < w,
                    0 <= vy,
            ;
        } else if dy < dx {
            assert(dy * w + vy < dx * w + vx) by (nonlinear_arith)
                requires
                    dy + 1 <= dx,
                    0 <= vy < w,
                    0 <= vx,
            ;
        }
    }
}

proof fn lemma_run_keys_compare(a: Seq<char>, b: Seq<char>, s: Seq<char>)
    requires
        0 < a.len() <= u64::MAX,
        0 < b.len() <= u64::MAX,
        all_digits(a),
        all_digits(b),
        s.len() > 0 ==> !is_digit(s[0]),
    ensures
        key_le(natural_key(a + s), natural_key(b + s)) <==> digits_value(a) <= digits_value(b),
{
    lemma_key_of_run(a, s);
    lemma_key_of_run(b, s);
    lemma_leading_zeros_do_not_count(a);
    lemma_leading_zeros_do_not_count(b);
    let sa = a.skip(zero_run(a) as int);
    let sb = b.skip(zero_run(b) as int);
    let k = natural_key(s);
    let ka = natural_key(a + s);
    let kb = natural_key(b + s);
    assert(ka[0] == ('0' as u32, sa.len() as u64));
    assert(kb[0] == ('0' as u32, sb.len() as u64));
    assert(ka.drop_first() =~= plain_key(sa) + k);
    assert(kb.drop_first() =~= plain_key(sb) + k);
    if sa.len() == sb.len() {
        lemma_digits_compare(sa, sb, k);
    } else if sa.len() < sb.len() {
        lemma_longer_is_larger(sa, sb);
    } else {
        lemma_longer_is_larger(sb, sa);
    }
}

proof fn lemma_longer_is_larger(x: Seq<char>, y: Seq<char>)
    requires
        all_digits(x),
        all_digits(y),
        x.len() < y.len(),
        y[0] != '0',
    ensures
        digits_value(x) < digits_value(y),
{
    lemma_value_by_first(y);
    assert(is_digit(y[0]));
    let n = (y.len() - 1) as nat;
    lemma_pow_grows(x.len(), n);
    if x.len() > 0 {
        lemma_value_by_first(x);
    }
    let d = y[0] as int - '0' as int;
    let w = pow(10, n);
    assert(d * w >= w) by (nonlinear_arith)
        requires
            d >= 1,
            w > 0,
    ;
}

/// Of two names that differ in one number alone, the one with the smaller
/// number comes first, whatever zeros stand before it; where the numbers are
/// equal neither does.
pub proof fn law_numbers_in_names_count_by_value(
    p: Seq<char>,
    a: Seq<char>,
    b: Seq<char>,
    s: Seq<char>,
)
    requires
        p.len() > 0 ==> !('0' <= p.last() <= '9'),
        s.len() > 0 ==> !('0' <= s[0] <= '9'),
        0 < a.len() <= u64::MAX,
        0 < b.len() <= u64::MAX,
        forall|i: int| 0 <= i < a.len() ==> '0' <= #[trigger] a[i] <= '9',
        forall|i: int| 0 <= i < b.len() ==> '0' <= #[trigger] b[i] <= '9',
    ensures
        key_le(natural_key(p + a + s), natural_key(p + b + s)) <==> digits_value(a)
            <= digits_value(b),
        (key_le(natural_key(p + a + s), natural_key(p + b + s)) && !key_le(
            natural_key(p + b + s),
            natural_key(p + a + s),
        )) <==> digits_value(a) < digits_value(b),
{
    assert(p + a + s =~= p + (a + s));
    assert(p + b + s =~= p + (b + s));
    lemma_key_of_both(p, a + s);
    lemma_key_of_both(p, b + s);
    lemma_key_le_behind(natural_key(p), natural_key(a + s), natural_key(b + s));
    lemma_key_le_behind(natural_key(p), natural_key(b + s), natural_key(a + s));
    lemma_run_keys_compare(a, b, s);
    lemma_run_keys_compare(b, a, s);
}

/// Where two names differ first in characters that are no digits, the one
/// whose character comes first comes first, ASCII letters without their case;
/// and a name comes before what begins with it and goes on so.
pub proof fn law_letters_in_names_count_in_order(
    p: Seq<char>,
    c: char,
    d: char,
    s: Seq<char>,
    t: Seq<char>,
)
    requires
        !('0' <= c <= '9'),
        !('0' <= d <= '9'),
    ensures
        lower_char(c) as int != lower_char(d) as int ==> (key_le(
            natural_key(p + seq![c] + s),
            natural_key(p + seq![d] + t),
        ) <==> (lower_char(c) as int) < lower_char(d) as int),
        key_le(natural_key(p), natural_key(p + seq![c] + s)),
        !key_le(natural_key(p + seq![c] + s), natural_key(p)),
        lower_char(c) == lower_char(d) ==> natural_key(p + seq![c] + s) == natural_key(
            p + seq![d] + s,
        ),
{
    let x = seq![c] + s;
    let y = seq![d] + t;
    let z = seq![d] + s;
    assert(p + seq![c] + s =~= p + x);
    assert(p + seq![d] + t =~= p + y);
    assert(p + seq![d] + s =~= p + z);
    lemma_key_of_both(p, x);
    lemma_key_of_both(p, y);
    lemma_key_of_both(p, z);
    lemma_key_le_behind(natural_key(p), natural_key(x), natural_key(y));
    assert(x.drop_first() =~= s);
    assert(y.drop_first() =~= t);
    assert(z.drop_first() =~= s);
    assert(natural_key(x)[0] == (lower_char(c) as u32, 0u64));
    assert(natural_key(y)[0] == (lower_char(d) as u32, 0u64));
    vstd::utf8::char_u32_cast(lower_char(c), lower_char(c) as u32);
    vstd::utf8::char_u32_cast(lower_char(d), lower_char(d) as u32);
    let none = Seq::<Token>::empty();
    assert(natural_key(p) + none =~= natural_key(p));
    lemma_key_le_behind(natural_key(p), none, natural_key(x));
    lemma_key_le_behind(natural_key(p), natural_key(x), none);
}

/// Text is ordered by the first character in which it differs, and comes
/// before what begins with it.
pub proof fn law_text_is_ordered_by_its_characters(
    p: Seq<char>,
    c: char,
    d: char,
    s: Seq<char>,
    t: Seq<char>,
)
    ensures
        c != d ==> (text_le(p + seq![c] + s, p + seq![d] + t) <==> (c as int) < d as int),
        text_le(p, p + s),
        s.len() > 0 ==> !text_le(p + s, p),
{
    let x = seq![c] + s;
    let y = seq![d] + t;
    assert(plain_key(p + seq![c] + s) =~= plain_key(p) + plain_key(x));
    assert(plain_key(p + seq![d] + t) =~= plain_key(p) + plain_key(y));
    lemma_key_le_behind(plain_key(p), plain_key(x), plain_key(y));
    assert(plain_key(x)[0] == (c as u32, 0u64));
    assert(plain_key(y)[0] == (d as u32, 0u64));
    vstd::utf8::char_u32_cast(c, c as u32);
    vstd::utf8::char_u32_cast(d, d as u32);
    let none = Seq::<Token>::empty();
    assert(plain_key(p) + none =~= plain_key(p));
    assert(plain_key(p + s) =~= plain_key(p) + plain_key(s));
    lemma_key_le_behind(plain_key(p), none, plain_key(s));
    lemma_key_le_behind(plain_key(p), plain_key(s), none);
}

/// The stable order lists each position once; no later key comes before an
/// earlier one, and positions with one key keep their order.
pub proof fn law_stable_order_sorts_and_keeps(keys: Seq<Seq<Token>>, a: int, b: int)
    requires
        keys.len() <= usize::MAX,
        0 <= a < b < keys.len(),
    ensures
        ({
            let order = the_order(keys);
            &&& order.len() == keys.len()
            &&& order[a] < keys.len() && order[b] < keys.len() && order[a] != order[b]
            &&& key_le(keys[order[a] as int], keys[order[b] as int])
            &&& keys[order[a] as int] == keys[order[b] as int] ==> order[a] < order[b]
            &&& forall|i: usize| i < keys.len() ==> order.contains(i)
        }),
{
    lemma_stable_order_exists(keys);
    let order = the_order(keys);
    let n = keys.len() as int;
    assert(order[a] < n && order[b] < n);
    assert(ranked_before(keys, order[a] as int, order[b] as int));
    lemma_key_total(keys[order[a] as int], keys[order[a] as int]);
    assert forall|i: usize| i < keys.len() implies order.contains(i) by {
        lemma_stable_order_complete(order, keys, n, i);
    }
}

/// A key comes before another where its first token that differs does, by
/// its first number and then by its second, and before all that begins with
/// it.
pub proof fn law_keys_are_ordered_by_their_first_difference(
    k: Seq<Token>,
    x: Token,
    y: Token,
    a: Seq<Token>,
    b: Seq<Token>,
)
    ensures
        x != y ==> (key_le(k + seq![x] + a, k + seq![y] + b) <==> x.0 < y.0 || (x.0 == y.0 && x.1
            < y.1)),
        key_le(k, k + a),
        a.len() > 0 ==> !key_le(k + a, k),
{
    let p = seq![x] + a;
    let q = seq![y] + b;
    assert(k + seq![x] + a =~= k + p);
    assert(k + seq![y] + b =~= k + q);
    lemma_key_le_behind(k, p, q);
    assert(p[0] == x && q[0] == y);
    let none = Seq::<Token>::empty();
    assert(k + none =~= k);
    lemma_key_le_behind(k, none, a);
    lemma_key_le_behind(k, a, none);
}

/// Where one name goes on with a number and another with something else, the
/// number stands where a zero would.
pub proof fn law_numbers_stand_where_zero_does(
    p: Seq<char>,
    d: char,
    s: Seq<char>,
    c: char,
    t: Seq<char>,
)
    requires
        p.len() > 0 ==> !('0' <= p.last() <= '9'),
        '0' <= d <= '9',
        !('0' <= c <= '9'),
    ensures
        key_le(natural_key(p + seq![d] + s), natural_key(p + seq![c] + t)) <==> ('0' as int) < (
        lower_char(c) as int),
{
    let x = seq![d] + s;
    let y = seq![c] + t;
    assert(p + seq![d] + s =~= p + x);
    assert(p + seq![c] + t =~= p + y);
    lemma_key_of_both(p, x);
    lemma_key_of_both(p, y);
    lemma_key_le_behind(natural_key(p), natural_key(x), natural_key(y));
    lemma_run_is_digits(x);
    let n = digit_run(x) as int;
    assert(x[0] == d);
    let a = x.take(n);
    let rest = x.skip(n);
    assert(x =~= a + rest);
    if rest.len() > 0 {
        assert(rest[0] == x[n]);
    }
    lemma_key_of_run(a, rest);
    assert(natural_key(x)[0].0 == '0' as u32);
    assert(natural_key(y)[0] == (lower_char(c) as u32, 0u64));
    vstd::utf8::char_u32_cast(lower_char(c), lower_char(c) as u32);
}

/// Sorted texts are the texts, each as often, in the order of their
/// characters.
pub proof fn law_sorted_texts_are_sorted(v: Seq<Seq<char>>, a: int, b: int)
    requires
        v.len() <= usize::MAX,
    ensures
        sorted_texts(v).len() == v.len(),
        sorted_texts(v).to_multiset() == v.to_multiset(),
        0 <= a < b < v.len() ==> text_le(sorted_texts(v)[a], sorted_texts(v)[b]),
{
    let keys = plain_keys(v);
    let order = the_order(keys);
    lemma_stable_order_exists(keys);
    assert forall|x: usize| x < v.len() implies order.contains(x) by {
        lemma_stable_order_complete(order, keys, v.len() as int, x);
    }
    lemma_reordered_multiset(order, v);
    assert(sorted_texts(v) =~= Seq::new(v.len(), |k: int| v[order[k] as int]));
    if 0 <= a < b < v.len() {
        law_stable_order_sorts_and_keeps(keys, a, b);
        assert(keys[order[a] as int] == plain_key(v[order[a] as int]));
        assert(keys[order[b] as int] == plain_key(v[order[b] as int]));
    }
}

} // verus!
