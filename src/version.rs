use vstd::prelude::*;

use crate::text::{
    all_digits, chars_of, digits_of, find_char, is_canonical, is_digit, lacks, lemma_canonical_digits,
    lemma_digits_of, parse_u32, push_char, push_decimal, value_of,
};

verus! {

/// A release version, `major.minor.patch`.
#[derive(PartialEq, Eq, Structural, Clone, Copy, Debug, Hash, Ord)]
pub struct Version {
    pub major: u32,
    pub minor: u32,
    pub patch: u32,
}

/// The input to [`Version::from_str`] is not three dot-separated decimal fields.
#[derive(PartialEq, Eq, Structural, Clone, Copy, Debug)]
pub struct VersionParseError;

/// Three fields joined by dots.
pub open spec fn dotted(a: Seq<char>, b: Seq<char>, c: Seq<char>) -> Seq<char> {
    a + seq!['.'] + b + seq!['.'] + c
}

/// One field of a version: at least one decimal digit, worth at most `u32::MAX`.
pub open spec fn is_field(f: Seq<char>) -> bool {
    f.len() > 0 && all_digits(f) && value_of(f) <= u32::MAX
}

/// `s` is three fields joined by dots whose values are those of `v`.
pub open spec fn parses_as(s: Seq<char>, v: Version) -> bool {
    exists|a: Seq<char>, b: Seq<char>, c: Seq<char>|
        {
            &&& s == #[trigger] dotted(a, b, c)
            &&& is_field(a) && is_field(b) && is_field(c)
            &&& value_of(a) == v.major && value_of(b) == v.minor && value_of(c) == v.patch
        }
}

/// The dotted decimal rendering of `v`.
pub open spec fn version_text(v: Version) -> Seq<char> {
    dotted(digits_of(v.major as nat), digits_of(v.minor as nat), digits_of(v.patch as nat))
}

/// The order of versions: by major, then minor, then patch.
pub open spec fn version_cmp(a: Version, b: Version) -> core::cmp::Ordering {
    if a.major < b.major {
        core::cmp::Ordering::Less
    } else if a.major > b.major {
        core::cmp::Ordering::Greater
    } else if a.minor < b.minor {
        core::cmp::Ordering::Less
    } else if a.minor > b.minor {
        core::cmp::Ordering::Greater
    } else if a.patch < b.patch {
        core::cmp::Ordering::Less
    } else if a.patch > b.patch {
        core::cmp::Ordering::Greater
    } else {
        core::cmp::Ordering::Equal
    }
}

/// `a` comes strictly before `b`.
pub open spec fn precedes(a: Version, b: Version) -> bool {
    version_cmp(a, b) == core::cmp::Ordering::Less
}

/// Where the dots of a well-formed version string stand.
proof fn lemma_dotted_shape(a: Seq<char>, b: Seq<char>, c: Seq<char>)
    requires
        lacks(a, '.'),
        lacks(b, '.'),
        lacks(c, '.'),
    ensures
        ({
            let s = dotted(a, b, c);
            let i = a.len() as int;
            let j = (a.len() + 1 + b.len()) as int;
            &&& s[i] == '.' && s[j] == '.'
            &&& s.subrange(0, i) == a
            &&& s.subrange(i + 1, j) == b
            &&& s.subrange(j + 1, s.len() as int) == c
            &&& lacks(s.subrange(0, i), '.')
            &&& lacks(s.subrange(i + 1, j), '.')
            &&& lacks(s.subrange(j + 1, s.len() as int), '.')
        }),
{
    let s = dotted(a, b, c);
    let i = a.len() as int;
    let j = (a.len() + 1 + b.len()) as int;
    assert(s.subrange(0, i) =~= a);
    assert(s.subrange(i + 1, j) =~= b);
    assert(s.subrange(j + 1, s.len() as int) =~= c);
}

proof fn lemma_field_lacks_dot(f: Seq<char>)
    requires
        all_digits(f),
    ensures
        lacks(f, '.'),
{
    assert forall|i: int| 0 <= i < f.len() implies f[i] != '.' by {
        assert(is_digit(f[i]));
    }
}

/// A version string has a single decomposition into fields.
proof fn lemma_fields_unique(s: Seq<char>, v: Version, w: Version)
    requires
        parses_as(s, v),
        parses_as(s, w),
    ensures
        v == w,
{
    let (a, b, c) = choose|a: Seq<char>, b: Seq<char>, c: Seq<char>|
        {
            &&& s == #[trigger] dotted(a, b, c)
            &&& is_field(a) && is_field(b) && is_field(c)
            &&& value_of(a) == v.major && value_of(b) == v.minor && value_of(c) == v.patch
        };
    let (x, y, z) = choose|a: Seq<char>, b: Seq<char>, c: Seq<char>|
        {
            &&& s == #[trigger] dotted(a, b, c)
            &&& is_field(a) && is_field(b) && is_field(c)
            &&& value_of(a) == w.major && value_of(b) == w.minor && value_of(c) == w.patch
        };
    lemma_field_lacks_dot(a);
    lemma_field_lacks_dot(b);
    lemma_field_lacks_dot(c);
    lemma_field_lacks_dot(x);
    lemma_field_lacks_dot(y);
    lemma_field_lacks_dot(z);
    lemma_dotted_shape(a, b, c);
    lemma_dotted_shape(x, y, z);
    if a.len() < x.len() {
        assert(x[a.len() as int] == s[a.len() as int]);
    } else if x.len() < a.len() {
        assert(a[x.len() as int] == s[x.len() as int]);
    }
    assert(a.len() == x.len());
    let i = a.len() as int;
    if b.len() < y.len() {
        assert(y[b.len() as int] == s[i + 1 + b.len()]);
    } else if y.len() < b.len() {
        assert(b[y.len() as int] == s[i + 1 + y.len()]);
    }
}

impl Version {
    /// Reads `major.minor.patch`: exactly three fields of decimal digits, each at most
    /// `u32::MAX`.
    pub fn from_str(s: &str) -> (r: Result<Version, VersionParseError>)
        ensures
            r matches Ok(v) ==> parses_as(s@, v),
            r is Err ==> forall|v: Version| !parses_as(s@, v),
    {
        let d = chars_of(s);
        let ghost t = s@;
        let i = match find_char(&d, '.', 0) {
            Some(i) => i,
            None => {
                proof {
                    lemma_no_parse_without_dots(t, 0, t.len() as int);
                }
                return Err(VersionParseError);
            },
        };
        let j = match find_char(&d, '.', i + 1) {
            Some(j) => j,
            None => {
                proof {
                    lemma_no_parse_without_dots(t, i + 1, t.len() as int);
                }
                return Err(VersionParseError);
            },
        };
        if let Some(k) = find_char(&d, '.', j + 1) {
            proof {
                lemma_no_parse_with_third_dot(t, i as int, j as int, k as int);
            }
            return Err(VersionParseError);
        }
        let ghost a = t.subrange(0, i as int);
        let ghost b = t.subrange(i + 1, j as int);
        let ghost c = t.subrange(j + 1, t.len() as int);
        assert(t =~= dotted(a, b, c));
        let major = parse_u32(&d, 0, i);
        let minor = parse_u32(&d, i + 1, j);
        let patch = parse_u32(&d, j + 1, d.len());
        match (major, minor, patch) {
            (Some(major), Some(minor), Some(patch)) => {
                let v = Version { major, minor, patch };
                assert(parses_as(t, v));
                Ok(v)
            },
            _ => {
                proof {
                    assert forall|v: Version| !parses_as(t, v) by {
                        if parses_as(t, v) {
                            lemma_fields_at(t, v, i as int, j as int);
                        }
                    }
                }
                Err(VersionParseError)
            },
        }
    }

    /// The dotted decimal rendering, `major.minor.patch`.
    pub fn to_string(&self) -> (r: String)
        ensures
            r@ == version_text(*self),
    {
        let mut r = String::new();
        push_decimal(&mut r, self.major);
        push_char(&mut r, '.');
        push_decimal(&mut r, self.minor);
        push_char(&mut r, '.');
        push_decimal(&mut r, self.patch);
        assert(r@ =~= version_text(*self));
        r
    }
}

/// Without two dots there are no three fields.
proof fn lemma_no_parse_without_dots(s: Seq<char>, from: int, to: int)
    requires
        0 <= from <= to == s.len(),
        lacks(s.subrange(from, to), '.'),
        from == 0 || s[from - 1] == '.',
        from > 0 ==> lacks(s.subrange(0, from - 1), '.'),
    ensures
        forall|v: Version| !parses_as(s, v),
{
    assert forall|v: Version| !parses_as(s, v) by {
        if parses_as(s, v) {
            let (a, b, c) = choose|a: Seq<char>, b: Seq<char>, c: Seq<char>|
                {
                    &&& s == #[trigger] dotted(a, b, c)
                    &&& is_field(a) && is_field(b) && is_field(c)
                    &&& value_of(a) == v.major && value_of(b) == v.minor && value_of(c)
                        == v.patch
                };
            lemma_field_lacks_dot(a);
            lemma_field_lacks_dot(b);
            lemma_field_lacks_dot(c);
            lemma_dotted_shape(a, b, c);
            let j = (a.len() + 1 + b.len()) as int;
            if from == 0 {
                assert(s.subrange(from, to)[j] == s[j]);
            } else if from - 1 < a.len() {
                assert(a[from - 1] == s[from - 1]);
            } else if from - 1 > a.len() {
                assert(s.subrange(0, from - 1)[a.len() as int] == s[a.len() as int]);
            } else {
                assert(s.subrange(from, to)[j - from] == s[j]);
            }
        }
    }
}

/// A third dot leaves no three fields.
proof fn lemma_no_parse_with_third_dot(s: Seq<char>, i: int, j: int, k: int)
    requires
        0 <= i < j < k < s.len(),
        s[i] == '.' && s[j] == '.' && s[k] == '.',
    ensures
        forall|v: Version| !parses_as(s, v),
{
    assert forall|v: Version| !parses_as(s, v) by {
        if parses_as(s, v) {
            let (a, b, c) = choose|a: Seq<char>, b: Seq<char>, c: Seq<char>|
                {
                    &&& s == #[trigger] dotted(a, b, c)
                    &&& is_field(a) && is_field(b) && is_field(c)
                    &&& value_of(a) == v.major && value_of(b) == v.minor && value_of(c)
                        == v.patch
                };
            lemma_field_lacks_dot(a);
            lemma_field_lacks_dot(b);
            lemma_field_lacks_dot(c);
            let p = a.len() as int;
            let q = (a.len() + 1 + b.len()) as int;
            lemma_dotted_shape(a, b, c);
            assert forall|m: int| 0 <= m < s.len() && s[m] == '.' implies m == p || m == q by {
                if m < p {
                    assert(a[m] == s[m]);
                } else if p < m < q {
                    assert(b[m - p - 1] == s[m]);
                } else if m > q {
                    assert(c[m - q - 1] == s[m]);
                }
            }
        }
    }
}

/// With the first two dots at `i` and `j`, the fields of any parse are the text around them.
proof fn lemma_fields_at(s: Seq<char>, v: Version, i: int, j: int)
    requires
        parses_as(s, v),
        0 <= i < j < s.len(),
        s[i] == '.' && s[j] == '.',
        lacks(s.subrange(0, i), '.'),
        lacks(s.subrange(i + 1, j), '.'),
    ensures
        is_field(s.subrange(0, i)) && value_of(s.subrange(0, i)) == v.major,
        is_field(s.subrange(i + 1, j)) && value_of(s.subrange(i + 1, j)) == v.minor,
        is_field(s.subrange(j + 1, s.len() as int)) && value_of(s.subrange(j + 1, s.len() as int))
            == v.patch,
{
    let (a, b, c) = choose|a: Seq<char>, b: Seq<char>, c: Seq<char>|
        {
            &&& s == #[trigger] dotted(a, b, c)
            &&& is_field(a) && is_field(b) && is_field(c)
            &&& value_of(a) == v.major && value_of(b) == v.minor && value_of(c) == v.patch
        };
    lemma_field_lacks_dot(a);
    lemma_field_lacks_dot(b);
    lemma_field_lacks_dot(c);
    lemma_dotted_shape(a, b, c);
    let p = a.len() as int;
    let q = (a.len() + 1 + b.len()) as int;
    if i < p {
        assert(a[i] == s[i]);
    } else if p < i {
        assert(s.subrange(0, i)[p] == s[p]);
    }
    if j < q {
        assert(b[j - p - 1] == s[j]);
    } else if q < j {
        assert(s.subrange(i + 1, j)[q - i - 1] == s[q]);
    }
}

/// Rendering a version and reading it back gives the same version, and a string of three
/// canonical fields (no superfluous leading zeros) is the rendering of the version it reads
/// as.
pub proof fn lemma_text_round_trip(v: Version, a: Seq<char>, b: Seq<char>, c: Seq<char>)
    requires
        is_canonical(a) && value_of(a) <= u32::MAX,
        is_canonical(b) && value_of(b) <= u32::MAX,
        is_canonical(c) && value_of(c) <= u32::MAX,
        parses_as(dotted(a, b, c), v),
    ensures
        parses_as(version_text(v), v),
        version_text(v) == dotted(a, b, c),
        forall|w: Version| parses_as(version_text(v), w) ==> w == v,
{
    lemma_digits_of(v.major as nat);
    lemma_digits_of(v.minor as nat);
    lemma_digits_of(v.patch as nat);
    let (x, y, z) = (
        digits_of(v.major as nat),
        digits_of(v.minor as nat),
        digits_of(v.patch as nat),
    );
    assert(is_field(x) && is_field(y) && is_field(z));
    assert(version_text(v) == dotted(x, y, z));
    let u = Version {
        major: value_of(a) as u32,
        minor: value_of(b) as u32,
        patch: value_of(c) as u32,
    };
    assert(parses_as(dotted(a, b, c), u));
    lemma_fields_unique(dotted(a, b, c), u, v);
    lemma_canonical_digits(a);
    lemma_canonical_digits(b);
    lemma_canonical_digits(c);
    assert forall|w: Version| parses_as(version_text(v), w) implies w == v by {
        lemma_fields_unique(version_text(v), v, w);
    }
}

/// Versions are ordered as the tuples `(major, minor, patch)` are, lexicographically.
pub proof fn lemma_order_is_numeric(a: Version, b: Version)
    ensures
        precedes(a, b) <==> (a.major < b.major || (a.major == b.major && a.minor < b.minor) || (
        a.major == b.major && a.minor == b.minor && a.patch < b.patch)),
        (version_cmp(a, b) == core::cmp::Ordering::Equal) <==> a == b,
        precedes(a, b) <==> precedes(b, a) == false && a != b,
        vstd::std_specs::cmp::PartialOrdSpec::partial_cmp_spec(&a, &b) == Some(version_cmp(a, b)),
{
}

impl PartialOrd for Version {
    fn partial_cmp(&self, other: &Version) -> (r: Option<core::cmp::Ordering>) {
        if self.major != other.major {
            if self.major < other.major {
                Some(core::cmp::Ordering::Less)
            } else {
                Some(core::cmp::Ordering::Greater)
            }
        } else if self.minor != other.minor {
            if self.minor < other.minor {
                Some(core::cmp::Ordering::Less)
            } else {
                Some(core::cmp::Ordering::Greater)
            }
        } else if self.patch < other.patch {
            Some(core::cmp::Ordering::Less)
        } else if self.patch > other.patch {
            Some(core::cmp::Ordering::Greater)
        } else {
            Some(core::cmp::Ordering::Equal)
        }
    }
}

impl vstd::std_specs::cmp::PartialOrdSpecImpl for Version {
    open spec fn obeys_partial_cmp_spec() -> bool {
        true
    }

    open spec fn partial_cmp_spec(&self, other: &Version) -> Option<core::cmp::Ordering> {
        Some(version_cmp(*self, *other))
    }
}

} // verus!
