use vstd::prelude::*;
use vstd::relations::*;
use vstd::string::*;

verus! {

broadcast use vstd::seq_lib::group_to_multiset_ensures;

/// The views of a sequence of owned strings.
pub open spec fn views(v: Seq<String>) -> Seq<Seq<char>> {
    v.map_values(|s: String| s@)
}

/// Whether `v` holds a string equal to `s`.
pub fn contains_string(v: &Vec<String>, s: &String) -> (r: bool)
    ensures
        r == views(v@).contains(s@),
{
    let mut i: usize = 0;
    while i < v.len()
        invariant
            i <= v.len(),
            forall|j: int| 0 <= j < i ==> v@[j]@ != s@,
        decreases v.len() - i,
    {
        if v[i] == *s {
            assert(views(v@)[i as int] == s@);
            return true;
        }
        i = i + 1;
    }
    proof {
        if views(v@).contains(s@) {
            let k = choose|k: int| 0 <= k < views(v@).len() && views(v@)[k] == s@;
            assert(v@[k]@ == s@);
        }
    }
    false
}

/// An owned copy of `s`.
pub fn owned(s: &str) -> (r: String)
    ensures
        r@ == s@,
{
    String::from_str(s)
}

// ---------------------------------------------------------------------------
// Lexicographic order on strings (by Unicode scalar value, which is also the
// order of their UTF-8 bytes).
// ---------------------------------------------------------------------------
/// `a` sorts before or equal to `b`.
pub open spec fn seq_le(a: Seq<char>, b: Seq<char>) -> bool
    decreases a.len(),
{
    if a.len() == 0 {
        true
    } else if b.len() == 0 {
        false
    } else if a[0] != b[0] {
        (a[0] as int) < (b[0] as int)
    } else {
        seq_le(a.drop_first(), b.drop_first())
    }
}

/// The lexicographic order on strings, as a relation.
pub open spec fn string_order() -> spec_fn(Seq<char>, Seq<char>) -> bool {
    |a: Seq<char>, b: Seq<char>| seq_le(a, b)
}

proof fn lemma_seq_le_reflexive(a: Seq<char>)
    ensures
        seq_le(a, a),
    decreases a.len(),
{
    if a.len() > 0 {
        lemma_seq_le_reflexive(a.drop_first());
    }
}

proof fn lemma_seq_le_antisymmetric(a: Seq<char>, b: Seq<char>)
    requires
        seq_le(a, b),
        seq_le(b, a),
    ensures
        a == b,
    decreases a.len(),
{
    if a.len() == 0 {
        assert(b.len() == 0);
        assert(a =~= b);
    } else {
        assert(b.len() > 0);
        if a[0] == b[0] {
            lemma_seq_le_antisymmetric(a.drop_first(), b.drop_first());
            assert(a =~= seq![a[0]] + a.drop_first());
            assert(b =~= seq![b[0]] + b.drop_first());
        } else {
            assert(false);
        }
    }
}

proof fn lemma_seq_le_transitive(a: Seq<char>, b: Seq<char>, c: Seq<char>)
    requires
        seq_le(a, b),
        seq_le(b, c),
    ensures
        seq_le(a, c),
    decreases a.len(),
{
    if a.len() > 0 && b.len() > 0 && c.len() > 0 {
        if a[0] == b[0] && b[0] == c[0] {
            lemma_seq_le_transitive(a.drop_first(), b.drop_first(), c.drop_first());
        }
    }
}

proof fn lemma_seq_le_total(a: Seq<char>, b: Seq<char>)
    ensures
        seq_le(a, b) || seq_le(b, a),
    decreases a.len(),
{
    if a.len() > 0 && b.len() > 0 {
        if a[0] == b[0] {
            lemma_seq_le_total(a.drop_first(), b.drop_first());
        } else {
            assert((a[0] as int) != (b[0] as int));
        }
    }
}

/// The lexicographic order is a total order.
pub proof fn lemma_string_order_total()
    ensures
        total_ordering(string_order()),
{
    assert forall|x: Seq<char>| #[trigger] string_order()(x, x) by {
        lemma_seq_le_reflexive(x);
    }
    assert forall|x: Seq<char>, y: Seq<char>|
        #[trigger] string_order()(x, y) && #[trigger] string_order()(y, x) implies x == y by {
        lemma_seq_le_antisymmetric(x, y);
    }
    assert forall|x: Seq<char>, y: Seq<char>, z: Seq<char>|
        #[trigger] string_order()(x, y) && #[trigger] string_order()(y, z) implies string_order()(
        x,
        z,
    ) by {
        lemma_seq_le_transitive(x, y, z);
    }
    assert forall|x: Seq<char>, y: Seq<char>|
        #[trigger] string_order()(x, y) || #[trigger] string_order()(y, x) by {
        lemma_seq_le_total(x, y);
    }
}

proof fn lemma_seq_le_skip(a: Seq<char>, b: Seq<char>, i: int)
    requires
        0 <= i < a.len(),
        i < b.len(),
        a[i] == b[i],
    ensures
        seq_le(a.skip(i), b.skip(i)) == seq_le(a.skip(i + 1), b.skip(i + 1)),
{
    assert(a.skip(i).drop_first() =~= a.skip(i + 1));
    assert(b.skip(i).drop_first() =~= b.skip(i + 1));
}

/// Whether `a` sorts before or equal to `b`.
pub fn string_le(a: &String, b: &String) -> (r: bool)
    ensures
        r == seq_le(a@, b@),
{
    let sa = a.as_str();
    let sb = b.as_str();
    let la = sa.unicode_len();
    let lb = sb.unicode_len();
    let mut i: usize = 0;
    assert(a@.skip(0) =~= a@);
    assert(b@.skip(0) =~= b@);
    while i < la && i < lb
        invariant
            la == a@.len(),
            lb == b@.len(),
            sa@ == a@,
            sb@ == b@,
            i <= la,
            i <= lb,
            seq_le(a@, b@) == seq_le(a@.skip(i as int), b@.skip(i as int)),
        decreases la - i,
    {
        let ca = sa.get_char(i);
        let cb = sb.get_char(i);
        if ca != cb {
            assert(a@.skip(i as int)[0] == ca);
            assert(b@.skip(i as int)[0] == cb);
            return (ca as u32) < (cb as u32);
        }
        proof {
            lemma_seq_le_skip(a@, b@, i as int);
        }
        i = i + 1;
    }
    i == la
}

// ---------------------------------------------------------------------------
// Sorting
// ---------------------------------------------------------------------------
/// Two sequences that are sorted by the same total order and hold the same
/// elements are equal.
pub proof fn lemma_sorted_unique(a: Seq<Seq<char>>, b: Seq<Seq<char>>)
    requires
        sorted_by(a, string_order()),
        sorted_by(b, string_order()),
        a.to_multiset() =~= b.to_multiset(),
    ensures
        a == b,
    decreases a.len(),
{
    lemma_string_order_total();
    assert(a.len() == a.to_multiset().len());
    assert(b.len() == b.to_multiset().len());
    if a.len() == 0 {
        assert(a =~= b);
    } else {
        let x = a[0];
        let y = b[0];
        assert(a.contains(x));
        assert(a.to_multiset().count(x) > 0);
        assert(b.contains(x));
        let k = choose|k: int| 0 <= k < b.len() && b[k] == x;
        if k > 0 {
            assert(string_order()(b[0], b[k]));
        } else {
            assert(string_order()(y, x));
        }
        assert(b.contains(y));
        assert(b.to_multiset().count(y) > 0);
        assert(a.contains(y));
        let m = choose|m: int| 0 <= m < a.len() && a[m] == y;
        if m > 0 {
            assert(string_order()(a[0], a[m]));
        } else {
            assert(string_order()(x, y));
        }
        assert(x == y);
        let a1 = a.remove(0);
        let b1 = b.remove(0);
        assert(a1.to_multiset() =~= a.to_multiset().remove(x));
        assert(b1.to_multiset() =~= b.to_multiset().remove(y));
        assert forall|i: int, j: int| 0 <= i < j < a1.len() implies #[trigger] string_order()(
            a1[i],
            a1[j],
        ) by {
            assert(a1[i] == a[i + 1]);
            assert(a1[j] == a[j + 1]);
        }
        assert forall|i: int, j: int| 0 <= i < j < b1.len() implies #[trigger] string_order()(
            b1[i],
            b1[j],
        ) by {
            assert(b1[i] == b[i + 1]);
            assert(b1[j] == b[j + 1]);
        }
        lemma_sorted_unique(a1, b1);
        assert(a =~= seq![x] + a1);
        assert(b =~= seq![y] + b1);
    }
}

/// A sorted sequence holding the elements of `s` is the sorted form of `s`.
pub proof fn lemma_is_sort_of(r: Seq<Seq<char>>, s: Seq<Seq<char>>)
    requires
        sorted_by(r, string_order()),
        r.to_multiset() =~= s.to_multiset(),
    ensures
        r == s.sort_by(string_order()),
{
    lemma_string_order_total();
    s.lemma_sort_by_ensures(string_order());
    lemma_sorted_unique(r, s.sort_by(string_order()));
}

/// Sequences with the same elements have the same sorted form.
pub proof fn lemma_sort_permutation_invariant(a: Seq<Seq<char>>, b: Seq<Seq<char>>)
    requires
        a.to_multiset() =~= b.to_multiset(),
    ensures
        a.sort_by(string_order()) == b.sort_by(string_order()),
{
    lemma_string_order_total();
    a.lemma_sort_by_ensures(string_order());
    b.lemma_sort_by_ensures(string_order());
    lemma_sorted_unique(a.sort_by(string_order()), b.sort_by(string_order()));
}

/// The strings of `v` in ascending lexicographic order.
pub fn sort_strings(v: &Vec<String>) -> (r: Vec<String>)
    ensures
        views(r@) == views(v@).sort_by(string_order()),
{
    proof {
        lemma_string_order_total();
    }
    let mut r: Vec<String> = Vec::new();
    let mut i: usize = 0;
    while i < v.len()
        invariant
            i <= v.len(),
            total_ordering(string_order()),
            sorted_by(views(r@), string_order()),
            views(r@).to_multiset() =~= views(v@.take(i as int)).to_multiset(),
        decreases v.len() - i,
    {
        let x = v[i].clone();
        let mut k: usize = 0;
        while k < r.len() && string_le(&r[k], &x)
            invariant
                k <= r.len(),
                forall|j: int| 0 <= j < k ==> seq_le(#[trigger] r@[j]@, x@),
            decreases r.len() - k,
        {
            k = k + 1;
        }
        let ghost old_r = views(r@);
        proof {
            assert forall|j: int| k <= j < r.len() implies seq_le(x@, #[trigger] r@[j]@) by {
                if j == k {
                    lemma_seq_le_total(x@, r@[j]@);
                } else {
                    lemma_seq_le_total(x@, r@[k as int]@);
                    assert(string_order()(old_r[k as int], old_r[j]));
                    lemma_seq_le_transitive(x@, r@[k as int]@, r@[j]@);
                }
            }
        }
        r.insert(k, x);
        proof {
            let nr = views(r@);
            assert(nr =~= old_r.insert(k as int, x@));
            assert forall|a: int, b: int| 0 <= a < b < nr.len() implies #[trigger] string_order()(
                nr[a],
                nr[b],
            ) by {
                if b < k {
                    assert(string_order()(old_r[a], old_r[b]));
                } else if a > k {
                    assert(string_order()(old_r[a - 1], old_r[b - 1]));
                } else if a == k {
                    assert(seq_le(x@, old_r[b - 1]));
                } else {
                    assert(seq_le(old_r[a], x@));
                }
            }
            assert(nr.remove(k as int) =~= old_r);
            assert(nr.to_multiset().remove(x@) =~= old_r.to_multiset());
            assert(nr.to_multiset().count(x@) > 0) by {
                assert(nr.contains(x@)) by {
                    assert(nr[k as int] == x@);
                }
            }
            assert(nr.to_multiset() =~= old_r.to_multiset().insert(x@));
            assert(views(v@.take(i + 1)) =~= views(v@.take(i as int)).push(x@));
        }
        i = i + 1;
    }
    proof {
        assert(v@.take(v.len() as int) =~= v@);
        lemma_is_sort_of(views(r@), views(v@));
    }
    r
}

// ---------------------------------------------------------------------------
// Joining
// ---------------------------------------------------------------------------
/// The strings of `parts` with `sep` between each two of them.
pub open spec fn join_with(parts: Seq<Seq<char>>, sep: Seq<char>) -> Seq<char>
    decreases parts.len(),
{
    if parts.len() == 0 {
        Seq::empty()
    } else if parts.len() == 1 {
        parts[0]
    } else {
        join_with(parts.drop_last(), sep) + sep + parts.last()
    }
}

/// The strings of `parts` joined by `sep`.
pub fn join_strings(parts: &Vec<String>, sep: &str) -> (r: String)
    ensures
        r@ == join_with(views(parts@), sep@),
{
    let mut r = String::new();
    let mut i: usize = 0;
    while i < parts.len()
        invariant
            i <= parts.len(),
            r@ == join_with(views(parts@.take(i as int)), sep@),
        decreases parts.len() - i,
    {
        proof {
            let t = views(parts@.take(i + 1));
            assert(t.drop_last() =~= views(parts@.take(i as int)));
            assert(t.last() == parts@[i as int]@);
        }
        if i > 0 {
            r.append(sep);
        }
        r.append(parts[i].as_str());
        i = i + 1;
        proof {
            if i == 1 {
                assert(views(parts@.take(0)) =~= Seq::<Seq<char>>::empty());
                assert(r@ =~= parts@[0]@);
            }
        }
    }
    proof {
        assert(parts@.take(parts.len() as int) =~= parts@);
    }
    r
}

/// `std::string::String::push`: appends the character `c`.
#[verifier::external_body]
pub(crate) fn push_char(s: &mut String, c: char)
    ensures
        final(s)@ == old(s)@.push(c),
{
    s.push(c);
}

// ---------------------------------------------------------------------------
// Decimal integers
// ---------------------------------------------------------------------------
/// Whether `c` is an ASCII decimal digit.
pub open spec fn is_digit(c: char) -> bool {
    48 <= (c as int) <= 57
}

/// The ASCII digit for `d` (0 to 9).
pub open spec fn digit_char(d: int) -> char
    recommends
        0 <= d < 10,
{
    (48 + d) as char
}

/// The decimal digits of `n`, without leading zeros.
pub open spec fn nat_digits(n: nat) -> Seq<char>
    decreases n,
{
    if n < 10 {
        seq![digit_char(n as int)]
    } else {
        nat_digits(n / 10).push(digit_char((n % 10) as int))
    }
}

/// The decimal text of `i`: digits, with a leading `-` when negative.
pub open spec fn int_decimal(i: int) -> Seq<char> {
    if i < 0 {
        seq!['-'] + nat_digits((-i) as nat)
    } else {
        nat_digits(i as nat)
    }
}

/// The number that the digits `d` write.
pub open spec fn digits_value(d: Seq<char>) -> int
    decreases d.len(),
{
    if d.len() == 0 {
        0
    } else {
        digits_value(d.drop_last()) * 10 + ((d.last() as int) - 48)
    }
}

/// Whether every character of `d` is a decimal digit.
pub open spec fn all_digits(d: Seq<char>) -> bool {
    forall|i: int| 0 <= i < d.len() ==> is_digit(#[trigger] d[i])
}

/// What `str::parse::<i64>` gives for `s`: an optional `+` or `-`, then at
/// least one decimal digit and nothing else, of a value that fits in `i64`.
pub open spec fn parse_i64_spec(s: Seq<char>) -> Option<int> {
    let neg = s.len() > 0 && s[0] == '-';
    let signed = s.len() > 0 && (s[0] == '-' || s[0] == '+');
    let body = if signed {
        s.drop_first()
    } else {
        s
    };
    let v = if neg {
        -digits_value(body)
    } else {
        digits_value(body)
    };
    if body.len() == 0 || !all_digits(body) {
        None
    } else if i64::MIN <= v <= i64::MAX {
        Some(v)
    } else {
        None
    }
}

proof fn lemma_nat_digits(n: nat)
    ensures
        nat_digits(n).len() > 0,
        all_digits(nat_digits(n)),
        digits_value(nat_digits(n)) == n,
    decreases n,
{
    if n >= 10 {
        lemma_nat_digits(n / 10);
        lemma_digit_char((n % 10) as int);
        let d = nat_digits(n);
        assert(d.drop_last() =~= nat_digits(n / 10));
        assert(d.last() == digit_char((n % 10) as int));
        assert(n == (n / 10) * 10 + n % 10);
    } else {
        lemma_digit_char(n as int);
        assert(nat_digits(n).drop_last() =~= Seq::<char>::empty());
        assert(digits_value(Seq::<char>::empty()) == 0);
    }
}

proof fn lemma_digits_value_nonneg_mono(d: Seq<char>, k: int)
    requires
        all_digits(d),
        0 <= k <= d.len(),
    ensures
        0 <= digits_value(d.take(k)) <= digits_value(d),
    decreases d.len(),
{
    if d.len() > 0 {
        assert(all_digits(d.drop_last()));
        if k == d.len() {
            assert(d.take(k) =~= d);
            lemma_digits_value_nonneg_mono(d.drop_last(), 0);
        } else {
            assert(d.take(k) =~= d.drop_last().take(k));
            lemma_digits_value_nonneg_mono(d.drop_last(), k);
            lemma_digits_value_nonneg_mono(d.drop_last(), d.len() - 1);
            assert(d.drop_last().take(d.len() - 1) =~= d.drop_last());
        }
    } else {
        assert(d.take(k) =~= d);
    }
}

/// Reading back the decimal text of any `i64` gives the same number.
pub proof fn lemma_decimal_roundtrip(i: i64)
    ensures
        parse_i64_spec(int_decimal(i as int)) == Some(i as int),
{
    if i < 0 {
        let n = (-(i as int)) as nat;
        lemma_nat_digits(n);
        let s = int_decimal(i as int);
        assert(s.drop_first() =~= nat_digits(n));
        assert(s[0] == '-');
    } else {
        let n = i as nat;
        lemma_nat_digits(n);
        let s = nat_digits(n);
        assert(is_digit(s[0]));
    }
}

proof fn lemma_digit_char(d: int)
    requires
        0 <= d < 10,
    ensures
        is_digit(digit_char(d)),
        (digit_char(d) as int) - 48 == d,
{
}

fn push_digits(s: &mut String, m: u64)
    ensures
        final(s)@ == old(s)@ + nat_digits(m as nat),
    decreases m,
{
    if m >= 10 {
        push_digits(s, m / 10);
    }
    let d: u8 = (m % 10) as u8;
    let c: char = (48u8 + d) as char;
    assert(c == digit_char((m % 10) as int));
    push_char(s, c);
    proof {
        if m >= 10 {
            assert(nat_digits(m as nat) =~= nat_digits((m / 10) as nat).push(c));
        }
    }
}

/// The decimal text of `n`, as `format!("{}", n)` writes it.
pub fn i64_to_decimal(n: i64) -> (r: String)
    ensures
        r@ == int_decimal(n as int),
{
    let mut s = String::new();
    if n < 0 {
        push_char(&mut s, '-');
        let m: u64 = (-(n as i128)) as u64;
        push_digits(&mut s, m);
    } else {
        push_digits(&mut s, n as u64);
    }
    s
}

/// The number that `s` writes, as `str::parse::<i64>` reads it.
pub fn parse_i64(s: &str) -> (r: Option<i64>)
    ensures
        r matches Some(v) ==> parse_i64_spec(s@) == Some(v as int),
        r is None ==> parse_i64_spec(s@) is None,
{
    let len = s.unicode_len();
    let mut start: usize = 0;
    let mut neg = false;
    if len > 0 {
        let c0 = s.get_char(0);
        if c0 == '-' {
            neg = true;
            start = 1;
        } else if c0 == '+' {
            start = 1;
        }
    }
    let ghost body = s@.skip(start as int);
    proof {
        if start == 1 {
            assert(body =~= s@.drop_first());
        } else {
            assert(body =~= s@);
        }
        assert(neg == (s@.len() > 0 && s@[0] == '-'));
        assert((start == 1) == (s@.len() > 0 && (s@[0] == '-' || s@[0] == '+')));
    }
    if start >= len {
        return None;
    }
    let mut acc: i128 = 0;
    let mut j: usize = start;
    while j < len
        invariant
            start <= j <= len,
            len == s@.len(),
            body == s@.skip(start as int),
            body.len() == len - start,
            neg == (s@.len() > 0 && s@[0] == '-'),
            (start == 1) == (s@.len() > 0 && (s@[0] == '-' || s@[0] == '+')),
            start == 1 ==> body == s@.drop_first(),
            start != 1 ==> body == s@,
            all_digits(body.take(j - start)),
            acc == digits_value(body.take(j - start)),
            0 <= acc <= 9223372036854775808,
        decreases len - j,
    {
        let c = s.get_char(j);
        let cu = c as u32;
        if !(48 <= cu && cu <= 57) {
            assert(body[j - start] == c);
            assert(!all_digits(body));
            return None;
        }
        let d = (cu - 48) as i128;
        proof {
            let t = body.take(j - start + 1);
            assert(t.drop_last() =~= body.take(j - start));
            assert(t.last() == c);
        }
        acc = acc * 10 + d;
        j = j + 1;
        if acc > 9223372036854775808 {
            proof {
                if all_digits(body) {
                    lemma_digits_value_nonneg_mono(body, j - start);
                }
            }
            return None;
        }
    }
    proof {
        assert(body.take(len - start) =~= body);
    }
    if neg {
        Some((-acc) as i64)
    } else if acc <= 9223372036854775807 {
        Some(acc as i64)
    } else {
        None
    }
}

// ---------------------------------------------------------------------------
// JSON string literals
// ---------------------------------------------------------------------------
/// The lowercase hexadecimal digit of `n` (below 16).
pub open spec fn hex_digit(n: int) -> char {
    if n < 10 {
        ('0' as int + n) as char
    } else {
        ('a' as int + n - 10) as char
    }
}

/// How a JSON string literal writes the character `c`: a quote and a
/// backslash behind a backslash; backspace, tab, line feed, form feed and
/// carriage return as `\b \t \n \f \r`; any other character below
/// U+0020 as `\u00` and two lowercase hexadecimal digits; any other
/// character as itself.
pub open spec fn json_escape_char(c: char) -> Seq<char> {
    if c == '"' {
        seq!['\\', '"']
    } else if c == '\\' {
        seq!['\\', '\\']
    } else if c == '\x08' {
        seq!['\\', 'b']
    } else if c == '\t' {
        seq!['\\', 't']
    } else if c == '\n' {
        seq!['\\', 'n']
    } else if c == '\x0c' {
        seq!['\\', 'f']
    } else if c == '\r' {
        seq!['\\', 'r']
    } else if (c as int) < 0x20 {
        seq!['\\', 'u', '0', '0', hex_digit((c as int) / 16), hex_digit((c as int) % 16)]
    } else {
        seq![c]
    }
}

/// The characters of `s`, each escaped as a JSON string literal writes it.
pub open spec fn json_escaped(s: Seq<char>) -> Seq<char>
    decreases s.len(),
{
    if s.len() == 0 {
        Seq::empty()
    } else {
        json_escaped(s.drop_last()) + json_escape_char(s.last())
    }
}

/// The JSON string literal of `s`: `s` escaped, between double quotes.
pub open spec fn json_string_literal(s: Seq<char>) -> Seq<char> {
    seq!['"'] + json_escaped(s) + seq!['"']
}

/// `serde_json::to_string::<str>`: the JSON string literal for `s`. Claimed:
/// the result is `json_string_literal(s)`, which is what serde_json's
/// `format_escaped_str` writes (its `ESCAPE` table escapes exactly the
/// quote, the backslash and the characters below U+0020, with
/// `write_char_escape` choosing the short forms and lowercase hexadecimal);
/// serialising a `str` into a `Vec<u8>` has no failure path in serde_json's
/// source.
#[verifier::external_body]
pub(crate) fn json_quote(s: &str) -> (r: String)
    ensures
        r@ == json_string_literal(s@),
{
    serde_json::to_string(s).unwrap_or_default()
}

// ---------------------------------------------------------------------------
// Strings as sets
// ---------------------------------------------------------------------------
/// A copy of `v`.
pub fn clone_strings(v: &Vec<String>) -> (r: Vec<String>)
    ensures
        r@ == v@,
{
    let mut r: Vec<String> = Vec::new();
    let mut i: usize = 0;
    while i < v.len()
        invariant
            i <= v.len(),
            r@ =~= v@.take(i as int),
        decreases v.len() - i,
    {
        r.push(v[i].clone());
        i = i + 1;
    }
    assert(v@.take(v.len() as int) =~= v@);
    r
}

/// Removes every string equal to `s` from `v`.
pub fn remove_all(v: &mut Vec<String>, s: &String)
    ensures
        views(final(v)@).to_set() == views(old(v)@).to_set().remove(s@),
        views(old(v)@).no_duplicates() ==> views(final(v)@).no_duplicates(),
{
    let ghost o = views(v@);
    let mut r: Vec<String> = Vec::new();
    let mut i: usize = 0;
    while i < v.len()
        invariant
            i <= v.len(),
            views(v@) == o,
            views(r@).to_set() == o.take(i as int).to_set().remove(s@),
            forall|k: int| 0 <= k < r@.len() ==> exists|m: int| 0 <= m < i && #[trigger] views(r@)[k] == o[m],
            o.no_duplicates() ==> views(r@).no_duplicates(),
        decreases v.len() - i,
    {
        let ghost before = views(r@);
        if v[i] != *s {
            r.push(v[i].clone());
            proof {
                assert(views(r@) =~= before.push(o[i as int]));
                if o.no_duplicates() {
                    assert forall|a: int, b: int| 0 <= a < b < views(r@).len() implies views(r@)[a] != views(r@)[b] by {
                        if b == views(r@).len() - 1 {
                            let m = choose|m: int| 0 <= m < i && #[trigger] views(r@)[a] == o[m];
                            assert(views(r@)[a] == before[a]);
                        }
                    }
                }
                assert forall|k: int| 0 <= k < r@.len() implies exists|m: int| 0 <= m < i + 1 && #[trigger] views(r@)[k] == o[m] by {
                    if k == r@.len() - 1 {
                        assert(views(r@)[k] == o[i as int]);
                    } else {
                        assert(views(r@)[k] == before[k]);
                    }
                }
            }
        } else {
            proof {
                assert(views(r@) =~= before);
            }
        }
        proof {
            assert(o.take(i + 1) =~= o.take(i as int).push(o[i as int]));
            o.take(i as int).lemma_push_to_set_commute(o[i as int]);
            before.lemma_push_to_set_commute(o[i as int]);
            assert(views(r@).to_set() =~= o.take(i + 1).to_set().remove(s@));
        }
        i = i + 1;
    }
    assert(o.take(o.len() as int) =~= o);
    *v = r;
}

/// Adds `s` to `v` unless an equal string is already there.
pub fn insert_absent(v: &mut Vec<String>, s: String)
    ensures
        views(final(v)@).to_set() == views(old(v)@).to_set().insert(s@),
        views(old(v)@).no_duplicates() ==> views(final(v)@).no_duplicates(),
{
    let ghost o = views(v@);
    if !contains_string(v, &s) {
        let ghost sv = s@;
        v.push(s);
        proof {
            assert(views(v@) =~= o.push(sv));
            o.lemma_push_to_set_commute(sv);
        }
    } else {
        proof {
            assert(o.to_set().contains(s@));
            assert(o.to_set().insert(s@) =~= o.to_set());
        }
    }
}

/// Whether every string of `a` equals some string of `b`.
pub fn all_contained(a: &[String], b: &Vec<String>) -> (r: bool)
    ensures
        r == (forall|i: int| 0 <= i < a@.len() ==> views(b@).contains(#[trigger] a@[i]@)),
{
    let mut i: usize = 0;
    while i < a.len()
        invariant
            i <= a@.len(),
            forall|k: int| 0 <= k < i ==> views(b@).contains(#[trigger] a@[k]@),
        decreases a@.len() - i,
    {
        if !contains_string(b, &a[i]) {
            return false;
        }
        i = i + 1;
    }
    true
}

/// Removes from `v` every string that `items` holds.
pub fn remove_each(v: &mut Vec<String>, items: &Vec<String>)
    ensures
        views(final(v)@).to_set() == views(old(v)@).to_set().difference(views(items@).to_set()),
        views(old(v)@).no_duplicates() ==> views(final(v)@).no_duplicates(),
{
    let ghost o = views(v@).to_set();
    let mut i: usize = 0;
    while i < items.len()
        invariant
            i <= items@.len(),
            views(v@).to_set() == o.difference(views(items@.take(i as int)).to_set()),
            views(old(v)@).no_duplicates() ==> views(v@).no_duplicates(),
            o == views(old(v)@).to_set(),
        decreases items@.len() - i,
    {
        remove_all(v, &items[i]);
        proof {
            assert(views(items@.take(i + 1)) =~= views(items@.take(i as int)).push(
                items@[i as int]@,
            ));
            views(items@.take(i as int)).lemma_push_to_set_commute(items@[i as int]@);
            assert(views(v@).to_set() =~= o.difference(views(items@.take(i + 1)).to_set()));
        }
        i = i + 1;
    }
    assert(items@.take(items@.len() as int) =~= items@);
}

/// Adds to `v` every string of `items` that belongs to the permission
/// vocabulary, without
/// duplicating any.
pub fn insert_each_known(v: &mut Vec<String>, items: &Vec<String>)
    ensures
        views(final(v)@).to_set() == views(old(v)@).to_set().union(
            views(items@).to_set().filter(|p: Seq<char>| crate::permissions::is_known(p)),
        ),
        views(old(v)@).no_duplicates() ==> views(final(v)@).no_duplicates(),
{
    let ghost o = views(v@).to_set();
    let mut i: usize = 0;
    while i < items.len()
        invariant
            i <= items@.len(),
            views(v@).to_set() == o.union(
                views(items@.take(i as int)).to_set().filter(
                    |p: Seq<char>| crate::permissions::is_known(p),
                ),
            ),
            views(old(v)@).no_duplicates() ==> views(v@).no_duplicates(),
            o == views(old(v)@).to_set(),
        decreases items@.len() - i,
    {
        if crate::permissions::is_known_permission(items[i].as_str()) {
            insert_absent(v, items[i].clone());
        }
        proof {
            assert(views(items@.take(i + 1)) =~= views(items@.take(i as int)).push(
                items@[i as int]@,
            ));
            views(items@.take(i as int)).lemma_push_to_set_commute(items@[i as int]@);
            assert(views(v@).to_set() =~= o.union(
                views(items@.take(i + 1)).to_set().filter(
                    |p: Seq<char>| crate::permissions::is_known(p),
                ),
            ));
        }
        i = i + 1;
    }
    assert(items@.take(items@.len() as int) =~= items@);
}

/// `prefix` followed by `id`.
pub fn labelled(prefix: &str, id: &String) -> (r: String)
    ensures
        r@ == prefix@ + id@,
{
    let mut r = owned(prefix);
    r.append(id.as_str());
    r
}

} // verus!
