//! The plugin API version and the rule that decides which plugins the host
//! can load.
use vstd::prelude::*;

verus! {

/// An API version: `major.feature.patch`.
#[derive(Debug, Clone, Copy)]
pub struct CApiVersion {
    pub major: u16,
    pub feature: u8,
    pub patch: u8,
}

/// Two API versions are compatible when `major` and `feature` agree; the
/// patch level never breaks compatibility.
pub open spec fn compatible(a: CApiVersion, b: CApiVersion) -> bool {
    a.major == b.major && a.feature == b.feature
}

impl PartialEq for CApiVersion {
    /// Compatibility, not identity: the patch level is ignored.
    fn eq(&self, other: &CApiVersion) -> (r: bool) {
        self.major == other.major && self.feature == other.feature
    }
}

impl vstd::std_specs::cmp::PartialEqSpecImpl for CApiVersion {
    open spec fn obeys_eq_spec() -> bool {
        true
    }

    open spec fn eq_spec(&self, other: &CApiVersion) -> bool {
        compatible(*self, *other)
    }
}

/// An ASCII decimal digit.
pub open spec fn is_digit(b: u8) -> bool {
    48 <= b <= 57
}

/// The value of a string of decimal digits (0 for the empty string).
pub open spec fn decimal(s: Seq<u8>) -> nat
    decreases s.len(),
{
    if s.len() == 0 {
        0
    } else {
        decimal(s.drop_last()) * 10 + (s.last() - 48) as nat
    }
}

/// The bytes `start..end` of `bytes` are all digits.
pub open spec fn all_digits(bytes: Seq<u8>, start: int, end: int) -> bool {
    forall|k: int| start <= k < end ==> is_digit(#[trigger] bytes[k])
}

/// A longer run of digits never has a smaller value.
proof fn lemma_decimal_grows(bytes: Seq<u8>, start: int, i: int, end: int)
    requires
        0 <= start <= i <= end <= bytes.len(),
        all_digits(bytes, start, end),
    ensures
        decimal(bytes.subrange(start, i)) <= decimal(bytes.subrange(start, end)),
    decreases end - i,
{
    if i < end {
        lemma_decimal_grows(bytes, start, i + 1, end);
        assert(bytes.subrange(start, i + 1).drop_last() =~= bytes.subrange(start, i));
    }
}

/// The value of the decimal digits `start..end`, as a `u8`.
pub fn to_u8(bytes: &[u8], start: usize, end: usize) -> (r: u8)
    requires
        start <= end <= bytes@.len(),
        all_digits(bytes@, start as int, end as int),
        decimal(bytes@.subrange(start as int, end as int)) < 256,
    ensures
        r == decimal(bytes@.subrange(start as int, end as int)),
{
    let mut res: u8 = 0;
    let mut i = start;
    while i < end
        invariant
            start <= i <= end <= bytes@.len(),
            all_digits(bytes@, start as int, end as int),
            decimal(bytes@.subrange(start as int, end as int)) < 256,
            res == decimal(bytes@.subrange(start as int, i as int)),
        decreases end - i,
    {
        proof {
            lemma_decimal_grows(bytes@, start as int, i as int + 1, end as int);
            assert(bytes@.subrange(start as int, i as int + 1).drop_last() =~= bytes@.subrange(
                start as int,
                i as int,
            ));
            assert(is_digit(bytes@[i as int]));
        }
        res = 10 * res + (bytes[i] - 48);
        i = i + 1;
    }
    res
}

/// The value of the decimal digits `start..end`, as a `u16`.
pub fn to_u16(bytes: &[u8], start: usize, end: usize) -> (r: u16)
    requires
        start <= end <= bytes@.len(),
        all_digits(bytes@, start as int, end as int),
        decimal(bytes@.subrange(start as int, end as int)) < 65536,
    ensures
        r == decimal(bytes@.subrange(start as int, end as int)),
{
    let mut res: u16 = 0;
    let mut i = start;
    while i < end
        invariant
            start <= i <= end <= bytes@.len(),
            all_digits(bytes@, start as int, end as int),
            decimal(bytes@.subrange(start as int, end as int)) < 65536,
            res == decimal(bytes@.subrange(start as int, i as int)),
        decreases end - i,
    {
        proof {
            lemma_decimal_grows(bytes@, start as int, i as int + 1, end as int);
            assert(bytes@.subrange(start as int, i as int + 1).drop_last() =~= bytes@.subrange(
                start as int,
                i as int,
            ));
            assert(is_digit(bytes@[i as int]));
        }
        res = 10 * res + (bytes[i] - 48) as u16;
        i = i + 1;
    }
    res
}

/// The index of the first `.` at or after `from`, or the length if none.
pub open spec fn next_dot(s: Seq<u8>, from: int) -> int
    decreases s.len() - from,
{
    if from >= s.len() {
        s.len() as int
    } else if s[from] == 46 {
        from
    } else {
        next_dot(s, from + 1)
    }
}

proof fn lemma_next_dot(s: Seq<u8>, from: int)
    requires
        0 <= from <= s.len(),
    ensures
        from <= next_dot(s, from) <= s.len(),
        next_dot(s, from) < s.len() ==> s[next_dot(s, from)] == 46,
        forall|k: int| from <= k < next_dot(s, from) ==> s[k] != 46,
    decreases s.len() - from,
{
    if from < s.len() && s[from] != 46 {
        lemma_next_dot(s, from + 1);
    }
}

/// The version written as `major.feature.patch` in decimal, if `s` is one
/// whose parts are non-empty, all digits and in range.
pub open spec fn version_text(s: Seq<u8>) -> Option<CApiVersion> {
    let d1 = next_dot(s, 0);
    let d2 = next_dot(s, d1 + 1);
    if d1 < s.len() && d2 < s.len() && 0 < d1 && d1 + 1 < d2 && d2 + 1 < s.len()
        && all_digits(s, 0, d1) && all_digits(s, d1 + 1, d2) && all_digits(s, d2 + 1, s.len() as int)
        && decimal(s.subrange(0, d1)) < 65536 && decimal(s.subrange(d1 + 1, d2)) < 256
        && decimal(s.subrange(d2 + 1, s.len() as int)) < 256 {
        Some(
            CApiVersion {
                major: decimal(s.subrange(0, d1)) as u16,
                feature: decimal(s.subrange(d1 + 1, d2)) as u8,
                patch: decimal(s.subrange(d2 + 1, s.len() as int)) as u8,
            },
        )
    } else {
        None
    }
}

fn find_dot(s: &[u8], from: usize) -> (r: usize)
    requires
        from <= s@.len(),
    ensures
        r == next_dot(s@, from as int),
{
    let mut i = from;
    while i < s.len()
        invariant
            from <= i <= s@.len(),
            next_dot(s@, from as int) == next_dot(s@, i as int),
        decreases s@.len() - i,
    {
        if s[i] == 46 {
            return i;
        }
        i = i + 1;
    }
    i
}

fn digits_in(s: &[u8], start: usize, end: usize) -> (r: bool)
    requires
        start <= end <= s@.len(),
    ensures
        r == all_digits(s@, start as int, end as int),
{
    let mut i = start;
    while i < end
        invariant
            start <= i <= end <= s@.len(),
            all_digits(s@, start as int, i as int),
        decreases end - i,
    {
        if s[i] < 48 || s[i] > 57 {
            return false;
        }
        i = i + 1;
    }
    true
}

/// Reads a decimal value of at most `limit` (which is below 65536) from the
/// digits `start..end`, or `None` when it is larger.
fn bounded_decimal(s: &[u8], start: usize, end: usize, limit: u32) -> (r: Option<u32>)
    requires
        start <= end <= s@.len(),
        all_digits(s@, start as int, end as int),
        limit < 65536,
    ensures
        r is Some <==> decimal(s@.subrange(start as int, end as int)) <= limit,
        r matches Some(v) ==> v == decimal(s@.subrange(start as int, end as int)),
{
    let mut res: u32 = 0;
    let mut i = start;
    while i < end
        invariant
            start <= i <= end <= s@.len(),
            all_digits(s@, start as int, end as int),
            limit < 65536,
            res <= limit,
            res == decimal(s@.subrange(start as int, i as int)),
        decreases end - i,
    {
        proof {
            lemma_decimal_grows(s@, start as int, i as int + 1, end as int);
            assert(s@.subrange(start as int, i as int + 1).drop_last() =~= s@.subrange(
                start as int,
                i as int,
            ));
            assert(is_digit(s@[i as int]));
        }
        res = 10 * res + (s[i] - 48) as u32;
        if res > limit {
            proof {
                lemma_decimal_grows(s@, start as int, i as int + 1, end as int);
            }
            return None;
        }
        i = i + 1;
    }
    Some(res)
}

/// The version text of this crate's API.
pub const API_VERSION_TEXT: [u8; 5] = [48, 46, 49, 46, 48];

impl CApiVersion {
    /// An API version from its three parts.
    pub fn new(major: u16, feature: u8, patch: u8) -> (r: CApiVersion)
        ensures
            r.major == major,
            r.feature == feature,
            r.patch == patch,
    {
        CApiVersion { major, feature, patch }
    }

    /// Reads `major.feature.patch`, each part non-empty decimal digits that
    /// fit its width; any other text gives `None`.
    pub fn parse(text: &[u8]) -> (r: Option<CApiVersion>)
        ensures
            r == version_text(text@),
    {
        let n = text.len();
        let d1 = find_dot(text, 0);
        if d1 >= n || d1 == 0 {
            return None;
        }
        let d2 = find_dot(text, d1 + 1);
        if d2 >= n || d2 <= d1 + 1 || d2 + 1 >= n {
            return None;
        }
        if !digits_in(text, 0, d1) || !digits_in(text, d1 + 1, d2) || !digits_in(text, d2 + 1, n) {
            return None;
        }
        let major = match bounded_decimal(text, 0, d1, 65535) {
            Some(v) => v,
            None => return None,
        };
        let feature = match bounded_decimal(text, d1 + 1, d2, 255) {
            Some(v) => v,
            None => return None,
        };
        let patch = match bounded_decimal(text, d2 + 1, n, 255) {
            Some(v) => v,
            None => return None,
        };
        Some(
            CApiVersion {
                major: to_u16(text, 0, d1),
                feature: to_u8(text, d1 + 1, d2),
                patch: to_u8(text, d2 + 1, n),
            },
        )
    }

    /// The API version that this host implements, read from
    /// [`API_VERSION_TEXT`].
    pub fn cargo() -> (r: CApiVersion)
        ensures
            Some(r) == version_text(API_VERSION_TEXT@),
    {
        let text = API_VERSION_TEXT;
        proof {
            let s = text@;
            assert(s =~= seq![48u8, 46, 49, 46, 48]);
            assert(s[0] == 48 && s[1] == 46 && s[2] == 49 && s[3] == 46 && s[4] == 48);
            assert(next_dot(s, 1) == 1);
            assert(next_dot(s, 0) == 1);
            assert(next_dot(s, 3) == 3);
            assert(next_dot(s, 2) == 3);
            assert(s.subrange(0, 1) =~= seq![48u8]);
            assert(s.subrange(2, 3) =~= seq![49u8]);
            assert(s.subrange(4, 5) =~= seq![48u8]);
            assert(seq![48u8].drop_last() =~= Seq::<u8>::empty());
            assert(seq![49u8].drop_last() =~= Seq::<u8>::empty());
            assert(decimal(Seq::<u8>::empty()) == 0);
            assert(seq![48u8].last() == 48 && seq![49u8].last() == 49);
            assert(decimal(seq![48u8]) == 0);
            assert(decimal(seq![49u8]) == 1);
        }
        match CApiVersion::parse(&text) {
            Some(v) => v,
            None => CApiVersion::new(0, 1, 0),
        }
    }

    /// Whether a plugin built against `self` can be loaded by a host of
    /// `other`: `major` and `feature` must agree, `patch` may differ.
    pub fn is_compatible(&self, other: &CApiVersion) -> (r: bool)
        ensures
            r == compatible(*self, *other),
    {
        self.major == other.major && self.feature == other.feature
    }
}

/// Versions that differ only in their patch level are compatible, and a
/// different `major` or `feature` makes them incompatible.
pub proof fn lemma_version_gate(a: CApiVersion, b: CApiVersion)
    ensures
        (a.major == b.major && a.feature == b.feature) ==> compatible(a, b),
        (a.major != b.major || a.feature != b.feature) ==> !compatible(a, b),
        compatible(a, b) == compatible(b, a),
{
}

} // verus!
