use vstd::prelude::*;
use core::cmp::Ordering;
use crate::ascii::{is_digit, is_ascii_digit, chars_of};

verus! {

/// The code point of `c`.
pub open spec fn char_code(c: char) -> int {
    c as int
}

/// The value of decimal digit `c`.
pub open spec fn digit_value(c: char) -> int {
    (c as int) - ('0' as int)
}

/// Ten to the power `n`.
pub open spec fn pow10(n: nat) -> nat
    decreases n,
{
    if n == 0 {
        1
    } else {
        10 * pow10((n - 1) as nat)
    }
}

/// Every character of `s` is a decimal digit.
pub open spec fn all_digits(s: Seq<char>) -> bool {
    forall|i: int| 0 <= i < s.len() ==> is_digit(#[trigger] s[i])
}

/// The number that the decimal digits `s` spell (most significant first).
pub open spec fn digits_value(s: Seq<char>) -> int
    decreases s.len(),
{
    if s.len() == 0 {
        0
    } else {
        digit_value(s[0]) * pow10((s.len() - 1) as nat) + digits_value(s.drop_first())
    }
}

/// How many decimal digits `s` starts with.
pub open spec fn digit_run(s: Seq<char>) -> nat
    decreases s.len(),
{
    if s.len() > 0 && is_digit(s[0]) {
        1 + digit_run(s.drop_first())
    } else {
        0
    }
}

/// A digit run lies inside the name and holds only digits.
pub proof fn lemma_digit_run_bounds(s: Seq<char>)
    ensures
        digit_run(s) <= s.len(),
        s.len() > 0 && is_digit(s[0]) ==> digit_run(s) >= 1,
        all_digits(s.take(digit_run(s) as int)),
    decreases s.len(),
{
    if s.len() > 0 && is_digit(s[0]) {
        lemma_digit_run_bounds(s.drop_first());
        let k = digit_run(s) as int;
        assert forall|i: int| 0 <= i < k implies is_digit(#[trigger] s.take(k)[i]) by {
            if i > 0 {
                assert(s.take(k)[i] == s.drop_first().take(k - 1)[i - 1]);
            }
        }
    }
}

/// The sort key of a name: every maximal run of decimal digits becomes the
/// pair (`'0'`, its numeric value), every other character `c` becomes the pair
/// (`c`, 0).
pub open spec fn name_key(s: Seq<char>) -> Seq<(int, int)>
    decreases s.len(),
{
    if s.len() == 0 {
        seq![]
    } else if is_digit(s[0]) {
        proof {
            lemma_digit_run_bounds(s);
        }
        let k = digit_run(s) as int;
        seq![(char_code('0'), digits_value(s.take(k)))] + name_key(s.skip(k))
    } else {
        seq![(char_code(s[0]), 0int)] + name_key(s.drop_first())
    }
}

/// Three-way comparison of two key pairs, lexicographic: -1, 0 or 1.
pub open spec fn pair_order(p: (int, int), q: (int, int)) -> int {
    if p.0 < q.0 {
        -1
    } else if p.0 > q.0 {
        1
    } else if p.1 < q.1 {
        -1
    } else if p.1 > q.1 {
        1
    } else {
        0
    }
}

/// Three-way lexicographic comparison of two keys: -1, 0 or 1; a proper prefix
/// comes first.
pub open spec fn key_order(p: Seq<(int, int)>, q: Seq<(int, int)>) -> int
    decreases p.len(),
{
    if p.len() == 0 && q.len() == 0 {
        0
    } else if p.len() == 0 {
        -1
    } else if q.len() == 0 {
        1
    } else if pair_order(p[0], q[0]) != 0 {
        pair_order(p[0], q[0])
    } else {
        key_order(p.drop_first(), q.drop_first())
    }
}

/// Natural order of two names: digit runs compare by their numeric value,
/// everything else character by character.
pub open spec fn name_order(a: Seq<char>, b: Seq<char>) -> int {
    key_order(name_key(a), name_key(b))
}

/// -1, 0 or 1 for `Less`, `Equal`, `Greater`.
pub open spec fn ordering_sign(o: Ordering) -> int {
    match o {
        Ordering::Less => -1,
        Ordering::Equal => 0,
        Ordering::Greater => 1,
    }
}

proof fn lemma_pow10_pos(n: nat)
    ensures
        pow10(n) >= 1,
    decreases n,
{
    if n > 0 {
        lemma_pow10_pos((n - 1) as nat);
    }
}

proof fn lemma_pow10_mono(m: nat, n: nat)
    requires
        m <= n,
    ensures
        pow10(m) <= pow10(n),
    decreases n,
{
    if m < n {
        lemma_pow10_mono(m, (n - 1) as nat);
        lemma_pow10_pos((n - 1) as nat);
    }
}

proof fn lemma_value_bound(x: Seq<char>)
    requires
        all_digits(x),
    ensures
        0 <= digits_value(x) < pow10(x.len()),
    decreases x.len(),
{
    if x.len() > 0 {
        let t = x.drop_first();
        assert forall|i: int| 0 <= i < t.len() implies is_digit(#[trigger] t[i]) by {
            assert(t[i] == x[i + 1]);
        }
        lemma_value_bound(t);
        assert(is_digit(x[0]));
        let d = digit_value(x[0]);
        let p = pow10(t.len());
        assert(0 <= d <= 9);
        assert(0 <= d * p <= 9 * p) by (nonlinear_arith)
            requires 0 <= d <= 9, p >= 0;
    }
}

proof fn lemma_value_lead(x: Seq<char>)
    requires
        all_digits(x),
        x.len() > 0,
        x[0] != '0',
    ensures
        digits_value(x) >= pow10((x.len() - 1) as nat),
{
    let t = x.drop_first();
    assert forall|i: int| 0 <= i < t.len() implies is_digit(#[trigger] t[i]) by {
        assert(t[i] == x[i + 1]);
    }
    lemma_value_bound(t);
    assert(is_digit(x[0]));
    let d = digit_value(x[0]);
    let p = pow10(t.len());
    assert(d >= 1);
    assert(d * p >= p) by (nonlinear_arith)
        requires d >= 1, p >= 0;
}

proof fn lemma_value_zeros(x: Seq<char>, z: int)
    requires
        0 <= z <= x.len(),
        forall|i: int| 0 <= i < z ==> x[i] == '0',
    ensures
        digits_value(x) == digits_value(x.skip(z)),
    decreases z,
{
    if z > 0 {
        let t = x.drop_first();
        assert(digit_value(x[0]) == 0);
        assert(digit_value(x[0]) * pow10((x.len() - 1) as nat) == 0);
        assert(digits_value(x) == digit_value(x[0]) * pow10((x.len() - 1) as nat) + digits_value(t));
        assert forall|i: int| 0 <= i < z - 1 implies t[i] == '0' by {
            assert(t[i] == x[i + 1]);
        }
        lemma_value_zeros(t, z - 1);
        assert(t.skip(z - 1) =~= x.skip(z));
    } else {
        assert(x.skip(0) =~= x);
    }
}

proof fn lemma_value_lex(x: Seq<char>, y: Seq<char>, t: int)
    requires
        all_digits(x),
        all_digits(y),
        x.len() == y.len(),
        0 <= t < x.len(),
        forall|i: int| 0 <= i < t ==> x[i] == y[i],
        char_code(x[t]) < char_code(y[t]),
    ensures
        digits_value(x) < digits_value(y),
    decreases t,
{
    let xt = x.drop_first();
    let yt = y.drop_first();
    assert forall|i: int| 0 <= i < xt.len() implies is_digit(#[trigger] xt[i]) by {
        assert(xt[i] == x[i + 1]);
    }
    assert forall|i: int| 0 <= i < yt.len() implies is_digit(#[trigger] yt[i]) by {
        assert(yt[i] == y[i + 1]);
    }
    if t == 0 {
        lemma_value_bound(xt);
        lemma_value_bound(yt);
        assert(is_digit(x[0]) && is_digit(y[0]));
        let p = pow10(xt.len());
        let dx = digit_value(x[0]);
        let dy = digit_value(y[0]);
        assert(dx + 1 <= dy);
        assert(dx * p + p <= dy * p) by (nonlinear_arith)
            requires dx + 1 <= dy, p >= 0;
    } else {
        assert(x[0] == y[0]);
        lemma_value_lex(xt, yt, t - 1);
    }
}

proof fn lemma_value_len(x: Seq<char>, y: Seq<char>)
    requires
        all_digits(x),
        all_digits(y),
        x.len() < y.len(),
        y[0] != '0',
    ensures
        digits_value(x) < digits_value(y),
{
    lemma_value_bound(x);
    lemma_value_lead(y);
    lemma_pow10_mono(x.len(), (y.len() - 1) as nat);
}

/// A comparison is always -1, 0 or 1.
pub proof fn lemma_key_order_range(p: Seq<(int, int)>, q: Seq<(int, int)>)
    ensures
        -1 <= key_order(p, q) <= 1,
    decreases p.len(),
{
    if p.len() > 0 && q.len() > 0 && pair_order(p[0], q[0]) == 0 {
        lemma_key_order_range(p.drop_first(), q.drop_first());
    }
}

/// Swapping the operands negates the comparison.
pub proof fn lemma_key_order_antisymmetric(p: Seq<(int, int)>, q: Seq<(int, int)>)
    ensures
        key_order(p, q) == -key_order(q, p),
    decreases p.len(),
{
    if p.len() > 0 && q.len() > 0 && pair_order(p[0], q[0]) == 0 {
        lemma_key_order_antisymmetric(p.drop_first(), q.drop_first());
    }
}

/// Two keys compare equal exactly when they are the same key.
pub proof fn lemma_key_order_equal(p: Seq<(int, int)>, q: Seq<(int, int)>)
    ensures
        key_order(p, q) == 0 <==> p == q,
    decreases p.len(),
{
    if p.len() > 0 && q.len() > 0 && pair_order(p[0], q[0]) == 0 {
        lemma_key_order_equal(p.drop_first(), q.drop_first());
        assert(p[0] == q[0]);
        if p.drop_first() == q.drop_first() {
            assert(p =~= seq![p[0]] + p.drop_first());
            assert(q =~= seq![q[0]] + q.drop_first());
        }
        if p == q {
            assert(p.drop_first() == q.drop_first());
        }
    } else if p.len() == 0 && q.len() == 0 {
        assert(p =~= q);
    } else if p.len() > 0 && q.len() > 0 {
        if p == q {
            assert(pair_order(p[0], q[0]) == 0);
        }
    }
}

/// Key comparison is transitive.
pub proof fn lemma_key_order_transitive(p: Seq<(int, int)>, q: Seq<(int, int)>, r: Seq<(int, int)>)
    requires
        key_order(p, q) <= 0,
        key_order(q, r) <= 0,
    ensures
        key_order(p, r) <= 0,
    decreases p.len(),
{
    if p.len() > 0 && q.len() > 0 && r.len() > 0 {
        if pair_order(p[0], q[0]) == 0 && pair_order(q[0], r[0]) == 0 {
            lemma_key_order_transitive(p.drop_first(), q.drop_first(), r.drop_first());
        }
    }
}

/// The natural order of names is antisymmetric: swapping the names negates
/// the comparison.
pub proof fn lemma_name_order_antisymmetric(a: Seq<char>, b: Seq<char>)
    ensures
        name_order(a, b) == -name_order(b, a),
{
    lemma_key_order_antisymmetric(name_key(a), name_key(b));
}

/// The natural order of names is transitive.
pub proof fn lemma_name_order_transitive(a: Seq<char>, b: Seq<char>, c: Seq<char>)
    requires
        name_order(a, b) <= 0,
        name_order(b, c) <= 0,
    ensures
        name_order(a, c) <= 0,
        name_order(a, b) < 0 || name_order(b, c) < 0 ==> name_order(a, c) < 0,
{
    lemma_key_order_transitive(name_key(a), name_key(b), name_key(c));
    lemma_key_order_equal(name_key(a), name_key(c));
    lemma_key_order_equal(name_key(a), name_key(b));
    lemma_key_order_equal(name_key(b), name_key(c));
    lemma_key_order_antisymmetric(name_key(b), name_key(c));
    lemma_key_order_antisymmetric(name_key(a), name_key(b));
}

/// Every name is equal to itself in the natural order.
pub proof fn lemma_name_order_reflexive(a: Seq<char>)
    ensures
        name_order(a, a) == 0,
{
    lemma_key_order_equal(name_key(a), name_key(a));
}

proof fn lemma_run_end(s: Seq<char>, m: int)
    requires
        0 <= m <= s.len(),
        forall|k: int| 0 <= k < m ==> is_digit(#[trigger] s[k]),
        m == s.len() || !is_digit(s[m]),
    ensures
        digit_run(s) == m,
    decreases m,
{
    if m > 0 {
        let t = s.drop_first();
        assert forall|k: int| 0 <= k < m - 1 implies is_digit(#[trigger] t[k]) by {
            assert(t[k] == s[k + 1]);
        }
        if m < s.len() {
            assert(t[m - 1] == s[m]);
        }
        lemma_run_end(t, m - 1);
    }
}

proof fn lemma_key_head(s: Seq<char>)
    requires
        s.len() > 0,
    ensures
        name_key(s).len() > 0,
        name_key(s)[0].0 == if is_digit(s[0]) {
            char_code('0')
        } else {
            char_code(s[0])
        },
        !is_digit(s[0]) ==> name_key(s)[0].1 == 0,
        !is_digit(s[0]) ==> name_key(s).drop_first() == name_key(s.drop_first()),
{
    if !is_digit(s[0]) {
        assert((seq![(char_code(s[0]), 0int)] + name_key(s.drop_first())).drop_first() =~= name_key(
            s.drop_first(),
        ));
    }
}

proof fn lemma_key_digit_run(a: Seq<char>, i: int, e: int)
    requires
        0 <= i < e <= a.len(),
        forall|k: int| i <= k < e ==> is_digit(#[trigger] a[k]),
        e == a.len() || !is_digit(a[e]),
    ensures
        name_key(a.skip(i)).len() > 0,
        name_key(a.skip(i))[0] == (char_code('0'), digits_value(a.subrange(i, e))),
        name_key(a.skip(i)).drop_first() == name_key(a.skip(e)),
        all_digits(a.subrange(i, e)),
{
    let s = a.skip(i);
    assert forall|k: int| 0 <= k < e - i implies is_digit(#[trigger] s[k]) by {
        assert(s[k] == a[i + k]);
    }
    if e < a.len() {
        assert(s[e - i] == a[e]);
    }
    lemma_run_end(s, e - i);
    assert(s.take(e - i) =~= a.subrange(i, e));
    assert(s.skip(e - i) =~= a.skip(e));
    assert((seq![(char_code('0'), digits_value(a.subrange(i, e)))] + name_key(a.skip(e))).drop_first()
        =~= name_key(a.skip(e)));
    assert forall|k: int| 0 <= k < e - i implies is_digit(#[trigger] a.subrange(i, e)[k]) by {
        assert(a.subrange(i, e)[k] == a[i + k]);
    }
}

/// End of the run of digits that starts at `i`.
fn digit_end(a: &[char], i: usize) -> (e: usize)
    requires
        i < a@.len(),
        is_digit(a@[i as int]),
    ensures
        i < e <= a@.len(),
        forall|k: int| i <= k < e ==> is_digit(#[trigger] a@[k]),
        e == a@.len() || !is_digit(a@[e as int]),
{
    let n = a.len();
    let mut e = i + 1;
    while e < n && is_ascii_digit(a[e])
        invariant
            i < e <= a@.len(),
            n == a@.len(),
            forall|k: int| i <= k < e ==> is_digit(#[trigger] a@[k]),
        decreases a@.len() - e,
    {
        e = e + 1;
    }
    e
}

/// End of the run of `'0'` characters that starts at `i`, at most `e`.
fn zeros_end(a: &[char], i: usize, e: usize) -> (z: usize)
    requires
        i <= e <= a@.len(),
    ensures
        i <= z <= e,
        forall|k: int| i <= k < z ==> a@[k] == '0',
        z == e || a@[z as int] != '0',
{
    let mut z = i;
    while z < e && a[z] == '0'
        invariant
            i <= z <= e,
            e <= a@.len(),
            forall|k: int| i <= k < z ==> a@[k] == '0',
        decreases e - z,
    {
        z = z + 1;
    }
    z
}

/// Compare two digit runs `a[i..ie)` and `b[j..je)` by value.
fn run_sign(a: &[char], i: usize, ie: usize, b: &[char], j: usize, je: usize) -> (r: i8)
    requires
        i <= ie <= a@.len(),
        j <= je <= b@.len(),
        all_digits(a@.subrange(i as int, ie as int)),
        all_digits(b@.subrange(j as int, je as int)),
    ensures
        r == pair_order(
            (char_code('0'), digits_value(a@.subrange(i as int, ie as int))),
            (char_code('0'), digits_value(b@.subrange(j as int, je as int))),
        ),
{
    let ghost xa = a@.subrange(i as int, ie as int);
    let ghost xb = b@.subrange(j as int, je as int);
    let za = zeros_end(a, i, ie);
    let zb = zeros_end(b, j, je);
    let ghost ya = a@.subrange(za as int, ie as int);
    let ghost yb = b@.subrange(zb as int, je as int);
    proof {
        assert forall|k: int| 0 <= k < za - i implies xa[k] == '0' by {
            assert(xa[k] == a@[i + k]);
        }
        lemma_value_zeros(xa, za - i);
        assert(xa.skip(za - i) =~= ya);
        assert forall|k: int| 0 <= k < zb - j implies xb[k] == '0' by {
            assert(xb[k] == b@[j + k]);
        }
        lemma_value_zeros(xb, zb - j);
        assert(xb.skip(zb - j) =~= yb);
        assert forall|k: int| 0 <= k < ya.len() implies is_digit(#[trigger] ya[k]) by {
            assert(ya[k] == xa[k + za - i]);
        }
        assert forall|k: int| 0 <= k < yb.len() implies is_digit(#[trigger] yb[k]) by {
            assert(yb[k] == xb[k + zb - j]);
        }
    }
    let la = ie - za;
    let lb = je - zb;
    if la < lb {
        proof {
            assert(yb[0] == b@[zb as int]);
            lemma_value_len(ya, yb);
        }
        return -1;
    }
    if la > lb {
        proof {
            assert(ya[0] == a@[za as int]);
            lemma_value_len(yb, ya);
        }
        return 1;
    }
    let mut t: usize = 0;
    while t < la && a[za + t] == b[zb + t]
        invariant
            za + la == ie,
            zb + lb == je,
            la == lb,
            ie <= a@.len(),
            je <= b@.len(),
            t <= la,
            ya == a@.subrange(za as int, ie as int),
            yb == b@.subrange(zb as int, je as int),
            forall|k: int| 0 <= k < t ==> ya[k] == yb[k],
        decreases la - t,
    {
        t = t + 1;
    }
    if t < la {
        proof {
            assert(ya[t as int] == a@[za + t]);
            assert(yb[t as int] == b@[zb + t]);
        }
        if a[za + t] < b[zb + t] {
            proof {
                lemma_value_lex(ya, yb, t as int);
            }
            return -1;
        } else {
            proof {
                lemma_value_lex(yb, ya, t as int);
            }
            return 1;
        }
    }
    assert(ya =~= yb);
    0
}

/// Three-way natural comparison, as -1, 0 or 1.
pub(crate) fn natural_sign(a: &[char], b: &[char]) -> (r: i8)
    ensures
        r == name_order(a@, b@),
{
    let mut i: usize = 0;
    let mut j: usize = 0;
    assert(a@.skip(0) =~= a@);
    assert(b@.skip(0) =~= b@);
    while i < a.len() && j < b.len()
        invariant
            i <= a@.len(),
            j <= b@.len(),
            name_order(a@, b@) == key_order(name_key(a@.skip(i as int)), name_key(b@.skip(j as int))),
        decreases a@.len() - i + b@.len() - j,
    {
        let ca = a[i];
        let cb = b[j];
        let ghost ka = name_key(a@.skip(i as int));
        let ghost kb = name_key(b@.skip(j as int));
        proof {
            lemma_key_head(a@.skip(i as int));
            lemma_key_head(b@.skip(j as int));
            assert(a@.skip(i as int)[0] == ca);
            assert(b@.skip(j as int)[0] == cb);
        }
        if is_ascii_digit(ca) && is_ascii_digit(cb) {
            let ie = digit_end(a, i);
            let je = digit_end(b, j);
            proof {
                lemma_key_digit_run(a@, i as int, ie as int);
                lemma_key_digit_run(b@, j as int, je as int);
            }
            let r = run_sign(a, i, ie, b, j, je);
            if r != 0 {
                return r;
            }
            i = ie;
            j = je;
        } else if ca < cb {
            return -1;
        } else if ca > cb {
            return 1;
        } else {
            proof {
                assert(a@.skip(i as int).drop_first() =~= a@.skip(i + 1));
                assert(b@.skip(j as int).drop_first() =~= b@.skip(j + 1));
            }
            i = i + 1;
            j = j + 1;
        }
    }
    if i == a.len() && j == b.len() {
        assert(a@.skip(i as int) =~= Seq::<char>::empty());
        assert(b@.skip(j as int) =~= Seq::<char>::empty());
        0
    } else if i == a.len() {
        assert(a@.skip(i as int) =~= Seq::<char>::empty());
        proof {
            lemma_key_head(b@.skip(j as int));
        }
        -1
    } else {
        assert(b@.skip(j as int) =~= Seq::<char>::empty());
        proof {
            lemma_key_head(a@.skip(i as int));
        }
        1
    }
}

/// Natural order of two names: runs of digits compare by their numeric value
/// (so "track2" comes before "track10"), everything else by code point.
pub fn natural_order(a: &[char], b: &[char]) -> (r: Ordering)
    ensures
        ordering_sign(r) == name_order(a@, b@),
{
    let s = natural_sign(a, b);
    proof {
        lemma_key_order_range(name_key(a@), name_key(b@));
    }
    if s < 0 {
        Ordering::Less
    } else if s == 0 {
        Ordering::Equal
    } else {
        Ordering::Greater
    }
}

/// What `str::to_lowercase` returns for a string: its Unicode lower case.
pub uninterp spec fn str_lowercase(s: Seq<char>) -> Seq<char>;

/// `str::to_lowercase`. Claims only that the result is the lower case that
/// `str_lowercase` names, a function of the string alone.
#[verifier::external_body]
pub(crate) fn to_lowercase(s: &str) -> (r: String)
    ensures
        r@ == str_lowercase(s@),
{
    s.to_lowercase()
}

/// The order in which the file list shows two file names: the natural order
/// of their lower-case forms.
pub open spec fn explorer_order(a: Seq<char>, b: Seq<char>) -> int {
    name_order(str_lowercase(a), str_lowercase(b))
}

/// Compare two file names the way the folder view orders them: a natural,
/// digit-aware, case-insensitive order (so "track2" precedes "track10").
/// After lower-casing, characters other than digits compare by code point,
/// so accented letters sort after the ASCII ones.
pub fn explorer_cmp(a: &str, b: &str) -> (r: Ordering)
    ensures
        ordering_sign(r) == explorer_order(a@, b@),
{
    let la = to_lowercase(a);
    let lb = to_lowercase(b);
    let ca = chars_of(la.as_str());
    let cb = chars_of(lb.as_str());
    natural_order(ca.as_slice(), cb.as_slice())
}

} // verus!
