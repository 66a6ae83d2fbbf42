use vstd::prelude::*;

verus! {

/// Whether `c` is one of the ASCII decimal digits.
pub open spec fn is_digit(c: char) -> bool {
    c == '0' || c == '1' || c == '2' || c == '3' || c == '4' || c == '5' || c == '6' || c == '7'
        || c == '8' || c == '9'
}

/// The numeric value of a decimal digit.
pub open spec fn digit_value(c: char) -> nat {
    if c == '1' {
        1
    } else if c == '2' {
        2
    } else if c == '3' {
        3
    } else if c == '4' {
        4
    } else if c == '5' {
        5
    } else if c == '6' {
        6
    } else if c == '7' {
        7
    } else if c == '8' {
        8
    } else if c == '9' {
        9
    } else {
        0
    }
}

/// The digit character for a value below ten.
pub open spec fn digit_char(n: nat) -> char {
    if n == 1 {
        '1'
    } else if n == 2 {
        '2'
    } else if n == 3 {
        '3'
    } else if n == 4 {
        '4'
    } else if n == 5 {
        '5'
    } else if n == 6 {
        '6'
    } else if n == 7 {
        '7'
    } else if n == 8 {
        '8'
    } else if n == 9 {
        '9'
    } else {
        '0'
    }
}

/// Every character of `d` is a decimal digit.
pub open spec fn all_digits(d: Seq<char>) -> bool {
    forall|i: int| 0 <= i < d.len() ==> is_digit(#[trigger] d[i])
}

/// The value of a string of decimal digits, most significant first.
pub open spec fn value_of(d: Seq<char>) -> nat
    decreases d.len(),
{
    if d.len() == 0 {
        0
    } else {
        value_of(d.drop_last()) * 10 + digit_value(d.last())
    }
}

/// The shortest decimal rendering of `n`.
pub open spec fn digits_of(n: nat) -> Seq<char>
    decreases n,
{
    if n < 10 {
        seq![digit_char(n)]
    } else {
        digits_of(n / 10).push(digit_char(n % 10))
    }
}

/// A non-empty digit string with no superfluous leading zero.
pub open spec fn is_canonical(d: Seq<char>) -> bool {
    &&& d.len() > 0
    &&& all_digits(d)
    &&& (d.len() == 1 || d[0] != '0')
}

/// Whether `s` ends with `suffix`.
pub open spec fn ends_with(s: Seq<char>, suffix: Seq<char>) -> bool {
    suffix.len() <= s.len() && s.subrange(s.len() - suffix.len(), s.len() as int) == suffix
}

/// Whether `c` does not occur in `s`.
pub open spec fn lacks(s: Seq<char>, c: char) -> bool {
    forall|i: int| 0 <= i < s.len() ==> s[i] != c
}

proof fn lemma_digit_char(n: nat)
    requires
        n < 10,
    ensures
        is_digit(digit_char(n)),
        digit_value(digit_char(n)) == n,
{
}

proof fn lemma_digit_value(c: char)
    requires
        is_digit(c),
    ensures
        digit_value(c) < 10,
        digit_char(digit_value(c)) == c,
{
}

/// A longer run of digits is worth at least as much as its prefix.
pub proof fn lemma_value_prefix(d: Seq<char>, k: int)
    requires
        0 <= k <= d.len(),
    ensures
        value_of(d.take(k)) <= value_of(d),
    decreases d.len(),
{
    if k < d.len() {
        lemma_value_prefix(d.drop_last(), k);
        assert(d.drop_last().take(k) =~= d.take(k));
    } else {
        assert(d.take(k) =~= d);
    }
}

/// The rendering of `n` is a canonical digit string worth `n`.
pub proof fn lemma_digits_of(n: nat)
    ensures
        is_canonical(digits_of(n)),
        value_of(digits_of(n)) == n,
        lacks(digits_of(n), '.'),
    decreases n,
{
    let d = digits_of(n);
    if n < 10 {
        lemma_digit_char(n);
        assert(d.drop_last() =~= Seq::<char>::empty());
        assert(d.last() == digit_char(n));
        assert(d[0] == digit_char(n));
        assert(value_of(d) == value_of(d.drop_last()) * 10 + digit_value(d.last()));
    } else {
        let q = n / 10;
        let p = digits_of(q);
        lemma_digits_of(q);
        lemma_digit_char(n % 10);
        assert(d.drop_last() =~= p);
        assert(d.last() == digit_char(n % 10));
        assert(d[0] == p[0]);
        assert(q >= 1);
        if p.len() == 1 {
            assert(p.drop_last() =~= Seq::<char>::empty());
            assert(value_of(p.drop_last()) == 0);
            assert(value_of(p) == digit_value(p.last()));
            assert(p.last() == p[0]);
            assert(value_of(p) == q);
            assert(p[0] != '0');
        }
        assert(forall|i: int| 0 <= i < d.len() - 1 ==> d[i] == #[trigger] p[i]);
        assert(all_digits(d)) by {
            assert forall|i: int| 0 <= i < d.len() implies is_digit(#[trigger] d[i]) by {
                if i < d.len() - 1 {
                    assert(d[i] == p[i]);
                }
            }
        }
        assert(lacks(d, '.')) by {
            assert forall|i: int| 0 <= i < d.len() implies d[i] != '.' by {
                if i < d.len() - 1 {
                    assert(d[i] == p[i]);
                }
            }
        }
        vstd::arithmetic::div_mod::lemma_fundamental_div_mod(n as int, 10);
        assert(value_of(d) == value_of(p) * 10 + digit_value(d.last()));
    }
}

/// A canonical digit string is the rendering of its value.
pub proof fn lemma_canonical_digits(d: Seq<char>)
    requires
        is_canonical(d),
    ensures
        digits_of(value_of(d)) == d,
    decreases d.len(),
{
    lemma_digit_value(d.last());
    if d.len() == 1 {
        assert(d.drop_last() =~= Seq::<char>::empty());
        assert(value_of(d.drop_last()) == 0);
        assert(value_of(d) == digit_value(d.last()));
        assert(d.last() == d[0]);
        assert(digits_of(value_of(d)) =~= d);
    } else {
        let p = d.drop_last();
        assert(is_canonical(p)) by {
            assert(p[0] == d[0]);
            assert forall|i: int| 0 <= i < p.len() implies is_digit(#[trigger] p[i]) by {
                assert(p[i] == d[i]);
            }
        }
        lemma_canonical_digits(p);
        lemma_value_prefix(p, 1);
        lemma_digit_value(p[0]);
        assert(p.take(1).drop_last() =~= Seq::<char>::empty());
        assert(value_of(p.take(1).drop_last()) == 0);
        assert(p.take(1).last() == p[0]);
        assert(value_of(p) >= 1);
        let v = value_of(p);
        let l = digit_value(d.last());
        assert((v * 10 + l) / 10 == v && (v * 10 + l) % 10 == l && v * 10 + l >= 10)
            by (nonlinear_arith)
            requires
                l < 10,
                v >= 1,
        ;
        assert(digits_of(value_of(d)) =~= d);
    }
}

/// Relies on `String::push`: appends one character.
#[verifier::external_body]
pub(crate) fn push_char(s: &mut String, c: char)
    ensures
        final(s)@ == old(s)@.push(c),
{
    s.push(c);
}

/// The characters of `s`, in order.
pub fn chars_of(s: &str) -> (r: Vec<char>)
    ensures
        r@ == s@,
{
    let mut r: Vec<char> = Vec::new();
    for c in it: s.chars()
        invariant
            r@ == it.seq().take(it.index() as int),
    {
        r.push(c);
    }
    r
}

/// A `String` holding the characters of `v`.
pub fn string_of(v: &Vec<char>) -> (r: String)
    ensures
        r@ == v@,
{
    let mut r = String::new();
    for i in 0..v.len()
        invariant
            r@ == v@.take(i as int),
    {
        push_char(&mut r, v[i]);
        assert(v@.take(i + 1) =~= v@.take(i as int).push(v@[i as int]));
    }
    assert(v@.take(v.len() as int) =~= v@);
    r
}

/// Appends the characters of `t` to `s`.
pub fn push_chars(s: &mut String, t: &Vec<char>)
    ensures
        final(s)@ == old(s)@ + t@,
{
    for i in 0..t.len()
        invariant
            s@ == old(s)@ + t@.take(i as int),
    {
        push_char(s, t[i]);
        assert(t@.take(i + 1) =~= t@.take(i as int).push(t@[i as int]));
    }
    assert(t@.take(t.len() as int) =~= t@);
}

/// Appends the characters of `t` to `s`.
pub fn push_str(s: &mut String, t: &str)
    ensures
        final(s)@ == old(s)@ + t@,
{
    let c = chars_of(t);
    push_chars(s, &c);
}

fn digit_to_char(n: u32) -> (c: char)
    requires
        n < 10,
    ensures
        c == digit_char(n as nat),
{
    match n {
        0 => '0',
        1 => '1',
        2 => '2',
        3 => '3',
        4 => '4',
        5 => '5',
        6 => '6',
        7 => '7',
        8 => '8',
        _ => '9',
    }
}

/// The value of `c` when it is a decimal digit.
pub fn char_to_digit(c: char) -> (r: Option<u32>)
    ensures
        r == (if is_digit(c) {
            Some(digit_value(c) as u32)
        } else {
            None
        }),
{
    match c {
        '0' => Some(0),
        '1' => Some(1),
        '2' => Some(2),
        '3' => Some(3),
        '4' => Some(4),
        '5' => Some(5),
        '6' => Some(6),
        '7' => Some(7),
        '8' => Some(8),
        '9' => Some(9),
        _ => None,
    }
}

/// Appends the decimal rendering of `n` to `s`.
pub fn push_decimal(s: &mut String, n: u32)
    ensures
        final(s)@ == old(s)@ + digits_of(n as nat),
    decreases n,
{
    if n >= 10 {
        push_decimal(s, n / 10);
    }
    let c = digit_to_char(n % 10);
    push_char(s, c);
    assert(final(s)@ =~= old(s)@ + digits_of(n as nat));
}

/// The value of the digits `d[lo..hi]`, when they are all digits, at least one, and the
/// value fits in a `u32`.
pub fn parse_u32(d: &Vec<char>, lo: usize, hi: usize) -> (r: Option<u32>)
    requires
        lo <= hi <= d.len(),
    ensures
        ({
            let f = d@.subrange(lo as int, hi as int);
            r == (if f.len() > 0 && all_digits(f) && value_of(f) <= u32::MAX {
                Some(value_of(f) as u32)
            } else {
                None
            })
        }),
{
    let ghost f = d@.subrange(lo as int, hi as int);
    if lo == hi {
        return None;
    }
    let mut acc: u64 = 0;
    let mut k: usize = lo;
    while k < hi
        invariant
            lo <= k <= hi <= d.len(),
            f == d@.subrange(lo as int, hi as int),
            all_digits(f.take(k - lo)),
            acc == value_of(f.take(k - lo)),
            acc <= u32::MAX,
        decreases hi - k,
    {
        let c = d[k];
        match char_to_digit(c) {
            None => {
                assert(f[k - lo] == c);
                return None;
            },
            Some(x) => {
                let ghost p = f.take(k - lo + 1);
                assert(p.drop_last() =~= f.take(k - lo));
                assert(p.last() == c);
                assert(all_digits(p)) by {
                    assert forall|i: int| 0 <= i < p.len() implies is_digit(#[trigger] p[i]) by {
                        if i < p.len() - 1 {
                            assert(p[i] == f.take(k - lo)[i]);
                        }
                    }
                }
                acc = acc * 10 + x as u64;
                k = k + 1;
                if acc > u32::MAX as u64 {
                    proof {
                        lemma_value_prefix(f, k - lo);
                    }
                    return None;
                }
            },
        }
    }
    assert(f.take(k - lo) =~= f);
    Some(acc as u32)
}

/// The first position at or after `from` that holds `c`.
pub fn find_char(d: &Vec<char>, c: char, from: usize) -> (r: Option<usize>)
    requires
        from <= d.len(),
    ensures
        match r {
            Some(k) => from <= k < d.len() && d@[k as int] == c && lacks(
                d@.subrange(from as int, k as int),
                c,
            ),
            None => lacks(d@.subrange(from as int, d.len() as int), c),
        },
{
    let mut k: usize = from;
    while k < d.len()
        invariant
            from <= k <= d.len(),
            forall|j: int| from <= j < k ==> d@[j] != c,
        decreases d.len() - k,
    {
        if d[k] == c {
            assert(lacks(d@.subrange(from as int, k as int), c)) by {
                assert forall|i: int| 0 <= i < k - from implies #[trigger] d@.subrange(
                    from as int,
                    k as int,
                )[i] != c by {
                    assert(d@.subrange(from as int, k as int)[i] == d@[from + i]);
                }
            }
            return Some(k);
        }
        k = k + 1;
    }
    assert(lacks(d@.subrange(from as int, d.len() as int), c)) by {
        assert forall|i: int| 0 <= i < d.len() - from implies #[trigger] d@.subrange(
            from as int,
            d.len() as int,
        )[i] != c by {
            assert(d@.subrange(from as int, d.len() as int)[i] == d@[from + i]);
        }
    }
    None
}

/// Whether `s` ends with `suffix`.
pub fn has_suffix(s: &Vec<char>, suffix: &Vec<char>) -> (r: bool)
    ensures
        r == ends_with(s@, suffix@),
{
    if suffix.len() > s.len() {
        return false;
    }
    let off = s.len() - suffix.len();
    let mut i: usize = 0;
    while i < suffix.len()
        invariant
            off + suffix.len() == s.len(),
            i <= suffix.len(),
            forall|j: int| 0 <= j < i ==> s@[off + j] == suffix@[j],
        decreases suffix.len() - i,
    {
        if s[off + i] != suffix[i] {
            assert(s@.subrange(off as int, s.len() as int)[i as int] != suffix@[i as int]);
            return false;
        }
        i = i + 1;
    }
    assert(s@.subrange(off as int, s.len() as int) =~= suffix@);
    true
}

/// Whether the two character sequences are equal.
pub fn same_chars(a: &Vec<char>, b: &Vec<char>) -> (r: bool)
    ensures
        r == (a@ == b@),
{
    if a.len() != b.len() {
        return false;
    }
    let mut i: usize = 0;
    while i < a.len()
        invariant
            a.len() == b.len(),
            i <= a.len(),
            forall|j: int| 0 <= j < i ==> a@[j] == b@[j],
        decreases a.len() - i,
    {
        if a[i] != b[i] {
            return false;
        }
        i = i + 1;
    }
    assert(a@ =~= b@);
    true
}

} // verus!
