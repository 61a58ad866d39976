//! Semantic versions: parsing, ordering, rendering and the update decision.

use crate::text::{
    byte_order, chars_of, decimal_digits, is_digit, lemma_byte_order_antisymmetric,
    lemma_byte_order_range, lemma_byte_order_reflexive, lemma_byte_order_transitive,
    lemma_byte_order_zero, lemma_decimal_digits, lemma_parse_decimal_digits, order_bytes,
    parse_u32, push_decimal, spec_parse_u32,
};
use vstd::prelude::*;
use vstd::string::*;
use vstd::utf8::*;

verus! {

/// A parsed version: three numbers and an optional pre-release tag.
#[derive(Debug, Clone, PartialEq, Eq)]
pub struct Version {
    /// Major number.
    pub major: u32,
    /// Minor number.
    pub minor: u32,
    /// Patch number.
    pub patch: u32,
    /// Pre-release tag: what followed the first hyphen, if there was one.
    pub pre_release: Option<String>,
}

/// The mathematical value of a [`Version`].
pub struct VersionModel {
    pub major: nat,
    pub minor: nat,
    pub patch: nat,
    pub pre_release: Option<Seq<char>>,
}

impl View for Version {
    type V = VersionModel;

    open spec fn view(&self) -> VersionModel {
        VersionModel {
            major: self.major as nat,
            minor: self.minor as nat,
            patch: self.patch as nat,
            pre_release: match self.pre_release {
                Some(tag) => Some(tag@),
                None => None,
            },
        }
    }
}

/// Why a string is not a version.
#[derive(Debug, Clone, Copy, PartialEq, Eq, Structural)]
pub enum VersionParseError {
    /// Fewer than three dot-separated components stand before the pre-release tag.
    MissingComponents,
    /// One of the first three components is not a number that fits in 32 bits.
    InvalidNumber,
}

/// The part of `s` before the first hyphen: the numeric components.
pub open spec fn numeric_part(s: Seq<char>) -> Seq<char> {
    match s.index_of_first('-') {
        Some(i) => s.take(i),
        None => s,
    }
}

/// The part of `s` after the first hyphen, if there is a hyphen.
pub open spec fn pre_release_part(s: Seq<char>) -> Option<Seq<char>> {
    match s.index_of_first('-') {
        Some(i) => Some(s.skip(i + 1)),
        None => None,
    }
}

/// The first dot-separated component of `s`.
pub open spec fn head_component(s: Seq<char>) -> Seq<char> {
    match s.index_of_first('.') {
        Some(i) => s.take(i),
        None => s,
    }
}

/// What follows the first dot of `s`, if there is a dot.
pub open spec fn after_head(s: Seq<char>) -> Option<Seq<char>> {
    match s.index_of_first('.') {
        Some(i) => Some(s.skip(i + 1)),
        None => None,
    }
}

/// The version that `s` denotes, or the reason why it denotes none.
///
/// The text before the first hyphen is split at dots and must have at least
/// three components, of which the first three must be numbers; further
/// components are ignored. The text after the first hyphen is the pre-release
/// tag, taken as it stands.
pub open spec fn spec_parse(s: Seq<char>) -> Result<VersionModel, VersionParseError> {
    let numbers = numeric_part(s);
    match after_head(numbers) {
        None => Err(VersionParseError::MissingComponents),
        Some(rest) => match after_head(rest) {
            None => Err(VersionParseError::MissingComponents),
            Some(tail) => match (
                spec_parse_u32(head_component(numbers)),
                spec_parse_u32(head_component(rest)),
                spec_parse_u32(head_component(tail)),
            ) {
                (Some(major), Some(minor), Some(patch)) => Ok(
                    VersionModel {
                        major: major as nat,
                        minor: minor as nat,
                        patch: patch as nat,
                        pre_release: pre_release_part(s),
                    },
                ),
                _ => Err(VersionParseError::InvalidNumber),
            },
        },
    }
}

/// The order of two versions: negative when `a` is older, `0` when they are
/// the same, positive when `a` is newer. Numbers decide first; at equal
/// numbers a release is newer than any pre-release, and two pre-release tags
/// are ordered by the bytes of their UTF-8 encodings.
pub open spec fn spec_compare(a: VersionModel, b: VersionModel) -> int {
    if a.major != b.major {
        if a.major < b.major {
            -1
        } else {
            1
        }
    } else if a.minor != b.minor {
        if a.minor < b.minor {
            -1
        } else {
            1
        }
    } else if a.patch != b.patch {
        if a.patch < b.patch {
            -1
        } else {
            1
        }
    } else {
        match (a.pre_release, b.pre_release) {
            (None, None) => 0,
            (Some(_), None) => -1,
            (None, Some(_)) => 1,
            (Some(x), Some(y)) => byte_order(encode_utf8(x), encode_utf8(y)),
        }
    }
}

/// The text of a version: `major.minor.patch`, then a hyphen and the
/// pre-release tag when there is one.
pub open spec fn spec_render(v: VersionModel) -> Seq<char> {
    let numbers = decimal_digits(v.major) + seq!['.'] + decimal_digits(v.minor) + seq!['.']
        + decimal_digits(v.patch);
    match v.pre_release {
        Some(tag) => numbers + seq!['-'] + tag,
        None => numbers,
    }
}

/// Whether an update from `current` to `new` is to be performed.
pub open spec fn spec_check_update(
    current: Option<VersionModel>,
    new: VersionModel,
    force: bool,
) -> bool {
    force || match current {
        None => true,
        Some(installed) => spec_compare(installed, new) < 0,
    }
}

/// Where `c` first occurs in `v[from..to]`.
fn find_char(v: &Vec<char>, from: usize, to: usize, c: char) -> (r: Option<usize>)
    requires
        from <= to <= v.len(),
    ensures
        match r {
            Some(k) => from <= k < to && v@.subrange(from as int, to as int).index_of_first(c)
                == Some(k - from),
            None => v@.subrange(from as int, to as int).index_of_first(c) is None,
        },
{
    let ghost part = v@.subrange(from as int, to as int);
    let mut i: usize = from;
    while i < to
        invariant
            from <= i <= to <= v.len(),
            part == v@.subrange(from as int, to as int),
            forall|j: int| 0 <= j < i - from ==> part[j] != c,
        decreases to - i,
    {
        if v[i] == c {
            proof {
                part.index_of_first_ensures(c);
                assert(part[i - from] == c);
                assert(part.contains(c));
                let found = part.index_of_first(c).unwrap();
                assert(part[found] == c);
                assert(found == i - from);
            }
            return Some(i);
        }
        i += 1;
    }
    proof {
        part.index_of_first_ensures(c);
        if part.contains(c) {
            let found = part.index_of_first(c).unwrap();
            assert(part[found] == c);
        }
    }
    None
}

impl Version {
    /// Parses a version string such as `1.4.2` or `2.0.0-beta`.
    pub fn parse(version_str: &str) -> (r: Result<Version, VersionParseError>)
        ensures
            match r {
                Ok(v) => spec_parse(version_str@) == Ok::<VersionModel, VersionParseError>(v@),
                Err(e) => spec_parse(version_str@) == Err::<VersionModel, VersionParseError>(e),
            },
    {
        let chars = chars_of(version_str);
        let len = chars.len();
        let hyphen = find_char(&chars, 0, len, '-');
        assert(chars@.subrange(0, len as int) =~= version_str@);
        let end: usize = match hyphen {
            Some(k) => k,
            None => len,
        };
        let ghost numbers = numeric_part(version_str@);
        assert(numbers =~= chars@.subrange(0, end as int));
        let first = find_char(&chars, 0, end, '.');
        let d1: usize = match first {
            Some(k) => k,
            None => {
                return Err(VersionParseError::MissingComponents);
            },
        };
        let ghost rest = after_head(numbers).unwrap();
        assert(rest =~= chars@.subrange(d1 + 1, end as int));
        assert(head_component(numbers) =~= chars@.subrange(0, d1 as int));
        let second = find_char(&chars, d1 + 1, end, '.');
        let d2: usize = match second {
            Some(k) => k,
            None => {
                return Err(VersionParseError::MissingComponents);
            },
        };
        let ghost tail = after_head(rest).unwrap();
        assert(tail =~= chars@.subrange(d2 + 1, end as int));
        assert(head_component(rest) =~= chars@.subrange(d1 + 1, d2 as int));
        let third = find_char(&chars, d2 + 1, end, '.');
        let d3: usize = match third {
            Some(k) => k,
            None => end,
        };
        assert(head_component(tail) =~= chars@.subrange(d2 + 1, d3 as int));
        let major = parse_u32(&chars, 0, d1);
        let minor = parse_u32(&chars, d1 + 1, d2);
        let patch = parse_u32(&chars, d2 + 1, d3);
        match (major, minor, patch) {
            (Some(major), Some(minor), Some(patch)) => {
                let pre_release = match hyphen {
                    Some(k) => {
                        let tag = version_str.substring_char(k + 1, len);
                        assert(tag@ =~= version_str@.skip(k + 1));
                        Some(tag.to_owned())
                    },
                    None => None,
                };
                Ok(Version { major, minor, patch, pre_release })
            },
            _ => Err(VersionParseError::InvalidNumber),
        }
    }

    /// Orders `self` against `other`: `-1`, `0` or `1`.
    pub fn compare(&self, other: &Version) -> (r: i32)
        ensures
            r == spec_compare(self@, other@),
    {
        if self.major > other.major {
            return 1;
        } else if self.major < other.major {
            return -1;
        }
        if self.minor > other.minor {
            return 1;
        } else if self.minor < other.minor {
            return -1;
        }
        if self.patch > other.patch {
            return 1;
        } else if self.patch < other.patch {
            return -1;
        }
        match (&self.pre_release, &other.pre_release) {
            (None, None) => 0,
            (Some(_), None) => -1,
            (None, Some(_)) => 1,
            (Some(a), Some(b)) => order_bytes(a.as_str().as_bytes(), b.as_str().as_bytes()),
        }
    }

    /// Writes the version as text: the inverse of [`Version::parse`].
    pub fn to_string(&self) -> (r: String)
        ensures
            r@ == spec_render(self@),
    {
        let mut out = String::new();
        push_decimal(&mut out, self.major);
        out.append(".");
        push_decimal(&mut out, self.minor);
        out.append(".");
        push_decimal(&mut out, self.patch);
        proof {
            reveal_strlit(".");
            reveal_strlit("-");
            assert("."@ =~= seq!['.']);
            assert("-"@ =~= seq!['-']);
        }
        match &self.pre_release {
            Some(tag) => {
                out.append("-");
                out.append(tag.as_str());
            },
            None => {},
        }
        assert(out@ =~= spec_render(self@));
        out
    }
}

/// Decides whether an update is to be performed: always when forced or when
/// nothing is installed, otherwise only when the installed version is older.
pub fn check_update(current_version: Option<Version>, new_version: &Version, force: bool) -> (r:
    bool)
    ensures
        r == spec_check_update(
            match current_version {
                Some(v) => Some(v@),
                None => None,
            },
            new_version@,
            force,
        ),
{
    if force {
        return true;
    }
    match current_version {
        None => true,
        Some(current) => current.compare(new_version) < 0,
    }
}

/// Whether `c` is white space: a character with the Unicode property
/// `White_Space`.
pub open spec fn is_space(c: char) -> bool {
    let u = c as u32;
    (0x09 <= u <= 0x0D) || u == 0x20 || u == 0x85 || u == 0xA0 || u == 0x1680 || (0x2000 <= u
        <= 0x200A) || u == 0x2028 || u == 0x2029 || u == 0x202F || u == 0x205F || u == 0x3000
}

/// The number of white-space characters at the start of `s`.
pub open spec fn leading_spaces(s: Seq<char>) -> int
    decreases s.len(),
{
    if s.len() > 0 && is_space(s[0]) {
        1 + leading_spaces(s.skip(1))
    } else {
        0
    }
}

/// The number of white-space characters at the end of `s`.
pub open spec fn trailing_spaces(s: Seq<char>) -> int
    decreases s.len(),
{
    if s.len() > 0 && is_space(s.last()) {
        1 + trailing_spaces(s.drop_last())
    } else {
        0
    }
}

/// `s` without the white space at its start and at its end.
pub open spec fn trimmed(s: Seq<char>) -> Seq<char> {
    let rest = s.skip(leading_spaces(s));
    rest.take(rest.len() - trailing_spaces(rest))
}

/// The installed version that the content of a version marker denotes. No
/// marker, or a marker with nothing but white space in it, means that
/// nothing is installed.
pub open spec fn spec_current_version(marker: Option<Seq<char>>) -> Result<
    Option<VersionModel>,
    VersionParseError,
> {
    match marker {
        None => Ok(None),
        Some(content) => if trimmed(content).len() == 0 {
            Ok(None)
        } else {
            match spec_parse(trimmed(content)) {
                Ok(v) => Ok(Some(v)),
                Err(e) => Err(e),
            }
        },
    }
}

/// Whether `c` is white space.
fn is_space_char(c: char) -> (r: bool)
    ensures
        r == is_space(c),
{
    let u = c as u32;
    (0x09 <= u && u <= 0x0D) || u == 0x20 || u == 0x85 || u == 0xA0 || u == 0x1680 || (0x2000 <= u
        && u <= 0x200A) || u == 0x2028 || u == 0x2029 || u == 0x202F || u == 0x205F || u == 0x3000
}

proof fn lemma_leading_spaces(s: Seq<char>, k: int)
    requires
        0 <= k <= s.len(),
        forall|j: int| 0 <= j < k ==> is_space(s[j]),
        k < s.len() ==> !is_space(s[k]),
    ensures
        leading_spaces(s) == k,
    decreases k,
{
    if k > 0 {
        lemma_leading_spaces(s.skip(1), k - 1);
    }
}

proof fn lemma_trailing_spaces(s: Seq<char>, k: int)
    requires
        0 <= k <= s.len(),
        forall|j: int| s.len() - k <= j < s.len() ==> is_space(s[j]),
        k < s.len() ==> !is_space(s[s.len() - k - 1]),
    ensures
        trailing_spaces(s) == k,
    decreases k,
{
    if k > 0 {
        lemma_trailing_spaces(s.drop_last(), k - 1);
    }
}

/// Reads the content of the version marker of an install directory:
/// `marker` is what the marker holds, and `None` when there is no marker.
pub fn get_current_version(marker: Option<&str>) -> (r: Result<Option<Version>, VersionParseError>)
    ensures
        match r {
            Ok(Some(v)) => spec_current_version(
                match marker {
                    Some(content) => Some(content@),
                    None => None,
                },
            ) == Ok::<Option<VersionModel>, VersionParseError>(Some(v@)),
            Ok(None) => spec_current_version(
                match marker {
                    Some(content) => Some(content@),
                    None => None,
                },
            ) == Ok::<Option<VersionModel>, VersionParseError>(None),
            Err(e) => spec_current_version(
                match marker {
                    Some(content) => Some(content@),
                    None => None,
                },
            ) == Err::<Option<VersionModel>, VersionParseError>(e),
        },
{
    let content = match marker {
        Some(content) => content,
        None => {
            return Ok(None);
        },
    };
    let chars = chars_of(content);
    let len = chars.len();
    let mut start: usize = 0;
    while start < len && is_space_char(chars[start])
        invariant
            start <= len,
            len == chars.len(),
            forall|j: int| 0 <= j < start ==> is_space(chars@[j]),
        decreases len - start,
    {
        start += 1;
    }
    let mut end: usize = len;
    while end > start && is_space_char(chars[end - 1])
        invariant
            start <= end <= len,
            len == chars.len(),
            forall|j: int| end <= j < len ==> is_space(chars@[j]),
        decreases end,
    {
        end -= 1;
    }
    proof {
        lemma_leading_spaces(chars@, start as int);
        let rest = chars@.skip(start as int);
        lemma_trailing_spaces(rest, len - end);
        assert(trimmed(content@) =~= chars@.subrange(start as int, end as int));
    }
    if start == end {
        return Ok(None);
    }
    let text = content.substring_char(start, end);
    match Version::parse(text) {
        Ok(v) => Ok(Some(v)),
        Err(e) => Err(e),
    }
}

/// `spec_compare` answers only `-1`, `0` or `1`.
pub proof fn lemma_compare_range(a: VersionModel, b: VersionModel)
    ensures
        -1 <= spec_compare(a, b) <= 1,
{
    if a.pre_release is Some && b.pre_release is Some {
        lemma_byte_order_range(
            encode_utf8(a.pre_release.unwrap()),
            encode_utf8(b.pre_release.unwrap()),
        );
    }
}

/// Every version is equal to itself.
pub proof fn lemma_compare_reflexive(a: VersionModel)
    ensures
        spec_compare(a, a) == 0,
{
    if a.pre_release is Some {
        lemma_byte_order_reflexive(encode_utf8(a.pre_release.unwrap()));
    }
}

/// Swapping the two versions negates the order.
pub proof fn lemma_compare_antisymmetric(a: VersionModel, b: VersionModel)
    ensures
        spec_compare(a, b) == -spec_compare(b, a),
{
    if a.pre_release is Some && b.pre_release is Some {
        lemma_byte_order_antisymmetric(
            encode_utf8(a.pre_release.unwrap()),
            encode_utf8(b.pre_release.unwrap()),
        );
    }
}

/// Two versions compare as equal only when they are the same version.
pub proof fn lemma_compare_zero(a: VersionModel, b: VersionModel)
    ensures
        spec_compare(a, b) == 0 <==> a == b,
{
    lemma_compare_reflexive(a);
    if a.pre_release is Some && b.pre_release is Some {
        let x = a.pre_release.unwrap();
        let y = b.pre_release.unwrap();
        lemma_byte_order_zero(encode_utf8(x), encode_utf8(y));
        encode_utf8_decode_utf8(x);
        encode_utf8_decode_utf8(y);
    }
}

/// The order of versions is transitive.
pub proof fn lemma_compare_transitive(a: VersionModel, b: VersionModel, c: VersionModel)
    requires
        spec_compare(a, b) <= 0,
        spec_compare(b, c) <= 0,
    ensures
        spec_compare(a, c) <= 0,
        spec_compare(a, b) < 0 || spec_compare(b, c) < 0 ==> spec_compare(a, c) < 0,
{
    if a.major == b.major && b.major == c.major && a.minor == b.minor && b.minor == c.minor
        && a.patch == b.patch && b.patch == c.patch && a.pre_release is Some
        && b.pre_release is Some && c.pre_release is Some {
        lemma_byte_order_transitive(
            encode_utf8(a.pre_release.unwrap()),
            encode_utf8(b.pre_release.unwrap()),
            encode_utf8(c.pre_release.unwrap()),
        );
    }
}

/// The update decision: with nothing installed an update is always due; the
/// installed version itself is never an update; any newer version is; and a
/// forced update is always performed.
pub proof fn lemma_check_update(current: VersionModel, new: VersionModel)
    ensures
        spec_check_update(None, new, false),
        !spec_check_update(Some(new), new, false),
        spec_compare(current, new) < 0 ==> spec_check_update(Some(current), new, false),
        spec_check_update(Some(current), new, true),
        spec_check_update(None, new, true),
{
    lemma_compare_reflexive(new);
}

/// The first `c` of a text that has none before position `at`, and one
/// there, is at `at`.
proof fn lemma_first_at(s: Seq<char>, c: char, at: int)
    requires
        0 <= at < s.len(),
        s[at] == c,
        forall|j: int| 0 <= j < at ==> s[j] != c,
    ensures
        s.index_of_first(c) == Some(at),
{
    s.index_of_first_ensures(c);
    assert(s.contains(c));
    let found = s.index_of_first(c).unwrap();
    assert(s[found] == c);
}

/// A text without `c` has no first `c`.
proof fn lemma_no_first(s: Seq<char>, c: char)
    requires
        forall|j: int| 0 <= j < s.len() ==> s[j] != c,
    ensures
        s.index_of_first(c) is None,
{
    s.index_of_first_ensures(c);
    if s.contains(c) {
        let found = s.index_of_first(c).unwrap();
        assert(s[found] == c);
    }
}

/// What is written is read back: the text of a version parses as the
/// version. So the version that an update writes to the version marker is
/// the version that the next update finds installed.
pub proof fn lemma_parse_inverts_render(v: VersionModel)
    requires
        v.major <= u32::MAX,
        v.minor <= u32::MAX,
        v.patch <= u32::MAX,
    ensures
        spec_parse(spec_render(v)) == Ok::<VersionModel, VersionParseError>(v),
{
    let a = decimal_digits(v.major);
    let b = decimal_digits(v.minor);
    let c = decimal_digits(v.patch);
    lemma_decimal_digits(v.major);
    lemma_decimal_digits(v.minor);
    lemma_decimal_digits(v.patch);
    lemma_parse_decimal_digits(v.major);
    lemma_parse_decimal_digits(v.minor);
    lemma_parse_decimal_digits(v.patch);
    let numbers = a + seq!['.'] + b + seq!['.'] + c;
    let text = spec_render(v);
    assert forall|j: int| 0 <= j < numbers.len() implies numbers[j] != '-' by {
        if j < a.len() {
            assert(is_digit(a[j]));
        } else if j == a.len() {
        } else if j < a.len() + 1 + b.len() {
            assert(is_digit(b[j - a.len() - 1]));
        } else if j == a.len() + 1 + b.len() {
        } else {
            assert(is_digit(c[j - a.len() - b.len() - 2]));
        }
    }
    match v.pre_release {
        Some(tag) => {
            assert(text == numbers + seq!['-'] + tag);
            assert forall|j: int| 0 <= j < numbers.len() implies text[j] != '-' by {
                assert(text[j] == numbers[j]);
            }
            lemma_first_at(text, '-', numbers.len() as int);
            assert(text.take(numbers.len() as int) =~= numbers);
            assert(text.skip(numbers.len() as int + 1) =~= tag);
        },
        None => {
            lemma_no_first(text, '-');
        },
    }
    assert(numeric_part(text) == numbers);
    assert(pre_release_part(text) == v.pre_release);
    assert forall|j: int| 0 <= j < a.len() implies numbers[j] != '.' by {
        assert(is_digit(a[j]));
    }
    lemma_first_at(numbers, '.', a.len() as int);
    let rest = b + seq!['.'] + c;
    assert(numbers.take(a.len() as int) =~= a);
    assert(numbers.skip(a.len() as int + 1) =~= rest);
    assert forall|j: int| 0 <= j < b.len() implies rest[j] != '.' by {
        assert(is_digit(b[j]));
    }
    lemma_first_at(rest, '.', b.len() as int);
    assert(rest.take(b.len() as int) =~= b);
    assert(rest.skip(b.len() as int + 1) =~= c);
    assert forall|j: int| 0 <= j < c.len() implies c[j] != '.' by {
        assert(is_digit(c[j]));
    }
    lemma_no_first(c, '.');
    assert(head_component(numbers) == a);
    assert(after_head(numbers) == Some(rest));
    assert(head_component(rest) == b);
    assert(after_head(rest) == Some(c));
    assert(head_component(c) == c);
}

} // verus!
