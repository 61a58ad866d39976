//! Small verified helpers on strings, characters and bytes.

use vstd::prelude::*;
use vstd::string::*;

verus! {

/// The characters of `s`, in order.
pub fn chars_of(s: &str) -> (out: Vec<char>)
    ensures
        out@ == s@,
{
    let mut out: Vec<char> = Vec::new();
    for c in it: s.chars()
        invariant
            out@ == it.seq().take(it.index() as int),
            it.seq() == s@,
    {
        out.push(c);
    }
    out
}

/// Whether `a` and `b` hold the same text.
pub fn same_text(a: &str, b: &str) -> (r: bool)
    ensures
        r == (a@ == b@),
{
    let x = a.as_bytes();
    let y = b.as_bytes();
    proof {
        lemma_byte_order_zero(a.spec_bytes(), b.spec_bytes());
        vstd::utf8::encode_utf8_decode_utf8(a@);
        vstd::utf8::encode_utf8_decode_utf8(b@);
    }
    order_bytes(x, y) == 0
}

/// A copy of `v`: the same strings in the same order.
pub fn clone_strings(v: &Vec<String>) -> (out: Vec<String>)
    ensures
        out.deep_view() == v.deep_view(),
{
    let mut out: Vec<String> = Vec::new();
    let mut i: usize = 0;
    while i < v.len()
        invariant
            i <= v.len(),
            out.len() == i,
            forall|j: int| 0 <= j < i ==> out@[j]@ == v@[j]@,
        decreases v.len() - i,
    {
        out.push(v[i].clone());
        i += 1;
    }
    assert(out.deep_view() =~= v.deep_view());
    out
}

/// Appends copies of the strings of `src` to `dst`.
pub fn append_strings(dst: &mut Vec<String>, src: &Vec<String>)
    ensures
        final(dst).deep_view() == old(dst).deep_view() + src.deep_view(),
{
    let ghost before = dst.deep_view();
    let mut i: usize = 0;
    while i < src.len()
        invariant
            i <= src.len(),
            dst.deep_view() == before + src.deep_view().take(i as int),
        decreases src.len() - i,
    {
        let ghost so_far = dst.deep_view();
        dst.push(src[i].clone());
        assert(dst.deep_view() =~= so_far.push(src@[i as int]@));
        assert(dst.deep_view() =~= before + src.deep_view().take(i + 1));
        i += 1;
    }
    assert(src.deep_view().take(src.len() as int) =~= src.deep_view());
}

/// Lexicographic order of two byte strings: `-1` when `a` sorts first, `0`
/// when they are equal, `1` when `b` sorts first. A proper prefix sorts
/// before the longer string.
pub open spec fn byte_order(a: Seq<u8>, b: Seq<u8>) -> int
    decreases a.len(),
{
    if a.len() == 0 {
        if b.len() == 0 {
            0
        } else {
            -1
        }
    } else if b.len() == 0 {
        1
    } else if a[0] < b[0] {
        -1
    } else if a[0] > b[0] {
        1
    } else {
        byte_order(a.skip(1), b.skip(1))
    }
}

/// Compares two byte strings lexicographically.
pub fn order_bytes(a: &[u8], b: &[u8]) -> (r: i32)
    ensures
        r == byte_order(a@, b@),
{
    let mut i: usize = 0;
    assert(a@.skip(0) =~= a@ && b@.skip(0) =~= b@);
    while i < a.len() && i < b.len()
        invariant
            i <= a.len(),
            i <= b.len(),
            byte_order(a@, b@) == byte_order(a@.skip(i as int), b@.skip(i as int)),
        decreases a.len() - i,
    {
        proof {
            assert(a@.skip(i as int).skip(1) =~= a@.skip(i + 1));
            assert(b@.skip(i as int).skip(1) =~= b@.skip(i + 1));
        }
        if a[i] < b[i] {
            return -1;
        }
        if a[i] > b[i] {
            return 1;
        }
        i += 1;
    }
    if i < b.len() {
        -1
    } else if i < a.len() {
        1
    } else {
        0
    }
}

/// `byte_order` answers only `-1`, `0` or `1`.
pub proof fn lemma_byte_order_range(a: Seq<u8>, b: Seq<u8>)
    ensures
        -1 <= byte_order(a, b) <= 1,
    decreases a.len(),
{
    if a.len() > 0 && b.len() > 0 && a[0] == b[0] {
        lemma_byte_order_range(a.skip(1), b.skip(1));
    }
}

/// A byte string is equal to itself under `byte_order`.
pub proof fn lemma_byte_order_reflexive(a: Seq<u8>)
    ensures
        byte_order(a, a) == 0,
    decreases a.len(),
{
    if a.len() > 0 {
        lemma_byte_order_reflexive(a.skip(1));
    }
}

/// Swapping the arguments of `byte_order` negates the result.
pub proof fn lemma_byte_order_antisymmetric(a: Seq<u8>, b: Seq<u8>)
    ensures
        byte_order(a, b) == -byte_order(b, a),
    decreases a.len(),
{
    if a.len() > 0 && b.len() > 0 && a[0] == b[0] {
        lemma_byte_order_antisymmetric(a.skip(1), b.skip(1));
    }
}

/// `byte_order` answers `0` exactly for equal byte strings.
pub proof fn lemma_byte_order_zero(a: Seq<u8>, b: Seq<u8>)
    ensures
        byte_order(a, b) == 0 <==> a == b,
    decreases a.len(),
{
    if a.len() > 0 && b.len() > 0 && a[0] == b[0] {
        lemma_byte_order_zero(a.skip(1), b.skip(1));
        if a.skip(1) == b.skip(1) {
            assert(a =~= seq![a[0]] + a.skip(1));
            assert(b =~= seq![b[0]] + b.skip(1));
        }
    } else if a.len() == 0 && b.len() == 0 {
        assert(a =~= b);
    }
}

/// `byte_order` is transitive.
pub proof fn lemma_byte_order_transitive(a: Seq<u8>, b: Seq<u8>, c: Seq<u8>)
    requires
        byte_order(a, b) <= 0,
        byte_order(b, c) <= 0,
    ensures
        byte_order(a, c) <= 0,
        byte_order(a, b) < 0 || byte_order(b, c) < 0 ==> byte_order(a, c) < 0,
    decreases a.len(),
{
    if a.len() > 0 && b.len() > 0 && c.len() > 0 && a[0] == b[0] && b[0] == c[0] {
        lemma_byte_order_transitive(a.skip(1), b.skip(1), c.skip(1));
    }
}

/// Whether `needle` stands in `hay` at position `at`.
pub open spec fn occurs_at(hay: Seq<char>, needle: Seq<char>, at: int) -> bool {
    0 <= at && at + needle.len() <= hay.len() && hay.subrange(at, at + needle.len()) == needle
}

/// Whether `needle` stands somewhere in `hay`. The empty text stands in
/// every text.
pub open spec fn occurs_in(hay: Seq<char>, needle: Seq<char>) -> bool {
    exists|at: int| occurs_at(hay, needle, at)
}

/// Whether `hay[at..]` begins with `needle`.
pub fn matches_at(hay: &Vec<char>, needle: &Vec<char>, at: usize) -> (r: bool)
    requires
        at <= hay.len(),
    ensures
        r == occurs_at(hay@, needle@, at as int),
{
    if needle.len() > hay.len() - at {
        return false;
    }
    let mut k: usize = 0;
    while k < needle.len()
        invariant
            k <= needle.len(),
            at + needle.len() <= hay.len(),
            forall|j: int| 0 <= j < k ==> hay@[at + j] == needle@[j],
        decreases needle.len() - k,
    {
        if hay[at + k] != needle[k] {
            assert(hay@.subrange(at as int, at + needle.len())[k as int] != needle@[k as int]);
            return false;
        }
        k += 1;
    }
    assert(hay@.subrange(at as int, at + needle.len()) =~= needle@);
    true
}

/// Whether `needle` stands somewhere in `hay`.
pub fn contains_text(hay: &Vec<char>, needle: &Vec<char>) -> (r: bool)
    ensures
        r == occurs_in(hay@, needle@),
{
    let mut at: usize = 0;
    while at < hay.len()
        invariant
            at <= hay.len(),
            forall|j: int| 0 <= j < at ==> !occurs_at(hay@, needle@, j),
        decreases hay.len() - at,
    {
        if matches_at(hay, needle, at) {
            return true;
        }
        at += 1;
    }
    matches_at(hay, needle, at)
}

/// Whether `needle` stands somewhere in `hay`.
pub fn str_contains(hay: &str, needle: &str) -> (r: bool)
    ensures
        r == occurs_in(hay@, needle@),
{
    let h = chars_of(hay);
    let n = chars_of(needle);
    contains_text(&h, &n)
}

/// `with` before every character of `s`.
pub open spec fn spread(s: Seq<char>, with: Seq<char>) -> Seq<char>
    decreases s.len(),
{
    if s.len() == 0 {
        Seq::empty()
    } else {
        with + seq![s[0]] + spread(s.skip(1), with)
    }
}

/// `s` with `with` in the place of every occurrence of `pattern`, where
/// `pattern` is not empty. Occurrences are found from left to right, and
/// what was put in is not searched again.
pub open spec fn replace_found(s: Seq<char>, pattern: Seq<char>, with: Seq<char>) -> Seq<char>
    decreases s.len(),
{
    if pattern.len() == 0 || s.len() < pattern.len() {
        s
    } else if s.take(pattern.len() as int) == pattern {
        with + replace_found(s.skip(pattern.len() as int), pattern, with)
    } else {
        seq![s[0]] + replace_found(s.skip(1), pattern, with)
    }
}

/// `s` with `with` in the place of every occurrence of `pattern`. The
/// empty pattern occurs before every character and at the end.
pub open spec fn replace_all(s: Seq<char>, pattern: Seq<char>, with: Seq<char>) -> Seq<char> {
    if pattern.len() == 0 {
        spread(s, with) + with
    } else {
        replace_found(s, pattern, with)
    }
}

/// `s` without every occurrence of `pattern`.
pub open spec fn remove_all(s: Seq<char>, pattern: Seq<char>) -> Seq<char> {
    replace_all(s, pattern, Seq::empty())
}

/// Puts `with` before every character of `s`, and at the end.
fn spread_text(s: &str, with: &str) -> (r: String)
    ensures
        r@ == spread(s@, with@) + with@,
{
    let len = s.unicode_len();
    let mut out = String::new();
    let mut at: usize = 0;
    assert(s@.skip(0) =~= s@);
    assert(out@ + spread(s@, with@) =~= spread(s@, with@));
    while at < len
        invariant
            at <= len,
            len == s@.len(),
            out@ + spread(s@.skip(at as int), with@) == spread(s@, with@),
        decreases len - at,
    {
        let ghost rest = s@.skip(at as int);
        let ghost before = out@;
        out.append(with);
        out.append(s.substring_char(at, at + 1));
        proof {
            assert(s@.subrange(at as int, at + 1) =~= seq![rest[0]]);
            assert(rest.skip(1) =~= s@.skip(at + 1));
            assert(out@ + spread(s@.skip(at + 1), with@) =~= before + (with@ + seq![rest[0]]
                + spread(rest.skip(1), with@)));
        }
        at += 1;
    }
    proof {
        assert(s@.skip(len as int) =~= Seq::<char>::empty());
        assert(out@ + Seq::<char>::empty() =~= out@);
    }
    out.append(with);
    out
}

/// Replaces every occurrence of `pattern` in `s` by `with`.
pub fn replace_text(s: &str, pattern: &str, with: &str) -> (r: String)
    ensures
        r@ == replace_all(s@, pattern@, with@),
{
    let chars = chars_of(s);
    let wanted = chars_of(pattern);
    if wanted.len() == 0 {
        return spread_text(s, with);
    }
    let len = chars.len();
    let mut out = String::new();
    // The characters `kept..at` are to be copied as they are.
    let mut kept: usize = 0;
    let mut at: usize = 0;
    proof {
        assert(s@.skip(0) =~= s@);
        assert(out@ + s@.subrange(0, 0) + replace_found(s@, pattern@, with@) =~= replace_found(
            s@,
            pattern@,
            with@,
        ));
    }
    while at < len
        invariant
            kept <= at <= len,
            len == chars.len(),
            chars@ == s@,
            wanted@ == pattern@,
            wanted.len() > 0,
            out@ + s@.subrange(kept as int, at as int) + replace_found(
                s@.skip(at as int),
                pattern@,
                with@,
            ) == replace_found(s@, pattern@, with@),
        decreases len - at,
    {
        let ghost rest = s@.skip(at as int);
        let ghost before = out@;
        let ghost pending = s@.subrange(kept as int, at as int);
        if matches_at(&chars, &wanted, at) {
            out.append(s.substring_char(kept, at));
            out.append(with);
            proof {
                assert(rest.take(pattern@.len() as int) =~= s@.subrange(
                    at as int,
                    at + pattern@.len(),
                ));
                assert(rest.skip(pattern@.len() as int) =~= s@.skip(at + pattern@.len()));
                let next = at + pattern@.len();
                assert(out@ + s@.subrange(next, next) + replace_found(
                    s@.skip(next),
                    pattern@,
                    with@,
                ) =~= before + pending + (with@ + replace_found(
                    rest.skip(pattern@.len() as int),
                    pattern@,
                    with@,
                )));
            }
            at += wanted.len();
            kept = at;
        } else if len - at >= wanted.len() {
            proof {
                assert(rest.take(pattern@.len() as int) =~= s@.subrange(
                    at as int,
                    at + pattern@.len(),
                ));
                assert(rest.skip(1) =~= s@.skip(at + 1));
                assert(out@ + s@.subrange(kept as int, at + 1) + replace_found(
                    s@.skip(at + 1),
                    pattern@,
                    with@,
                ) =~= before + pending + (seq![rest[0]] + replace_found(
                    rest.skip(1),
                    pattern@,
                    with@,
                )));
            }
            at += 1;
        } else {
            proof {
                assert(s@.skip(len as int) =~= Seq::<char>::empty());
                assert(out@ + s@.subrange(kept as int, len as int) + replace_found(
                    s@.skip(len as int),
                    pattern@,
                    with@,
                ) =~= before + pending + rest);
            }
            at = len;
        }
    }
    let ghost before = out@;
    out.append(s.substring_char(kept, len));
    proof {
        assert(s@.skip(len as int) =~= Seq::<char>::empty());
        assert(out@ =~= before + s@.subrange(kept as int, len as int) + Seq::<char>::empty());
    }
    out
}

/// Removes every occurrence of `pattern` from `s`.
pub fn remove_text(s: &str, pattern: &str) -> (r: String)
    ensures
        r@ == remove_all(s@, pattern@),
{
    let r = replace_text(s, pattern, "");
    proof {
        reveal_strlit("");
        assert(""@ =~= Seq::<char>::empty());
    }
    r
}

/// A line without the carriage return at its end, if it has one.
pub open spec fn without_return(line: Seq<char>) -> Seq<char> {
    if line.len() > 0 && line.last() == '\r' {
        line.drop_last()
    } else {
        line
    }
}

/// The lines of `s`. A line ends at a line feed, or at a carriage return
/// that a line feed follows; what stands after the last line feed is a line
/// too, unless it is empty.
pub open spec fn spec_lines(s: Seq<char>) -> Seq<Seq<char>>
    decreases s.len(),
{
    if s.len() == 0 {
        Seq::empty()
    } else {
        match s.index_of_first('\n') {
            None => seq![s],
            Some(i) => if 0 <= i < s.len() {
                seq![without_return(s.take(i))] + spec_lines(s.skip(i + 1))
            } else {
                seq![s]
            },
        }
    }
}

/// `lines` without the lines that are equal to `line`.
pub open spec fn without_line(lines: Seq<Seq<char>>, line: Seq<char>) -> Seq<Seq<char>>
    decreases lines.len(),
{
    if lines.len() == 0 {
        lines
    } else {
        let rest = without_line(lines.drop_last(), line);
        if lines.last() == line {
            rest
        } else {
            rest.push(lines.last())
        }
    }
}

/// The lines with a line feed between every two of them.
pub open spec fn join_lines(lines: Seq<Seq<char>>) -> Seq<char>
    decreases lines.len(),
{
    if lines.len() == 0 {
        Seq::empty()
    } else if lines.len() == 1 {
        lines[0]
    } else {
        join_lines(lines.drop_last()) + seq!['\n'] + lines.last()
    }
}

/// Where `c` first occurs in `v[from..]`.
pub fn find_from(v: &Vec<char>, from: usize, c: char) -> (r: Option<usize>)
    requires
        from <= v.len(),
    ensures
        match r {
            Some(k) => from <= k < v.len() && v@.skip(from as int).index_of_first(c) == Some(
                k - from,
            ),
            None => v@.skip(from as int).index_of_first(c) is None,
        },
{
    let ghost part = v@.skip(from as int);
    let mut i: usize = from;
    while i < v.len()
        invariant
            from <= i <= v.len(),
            part == v@.skip(from as int),
            forall|j: int| 0 <= j < i - from ==> part[j] != c,
        decreases v.len() - i,
    {
        if v[i] == c {
            proof {
                part.index_of_first_ensures(c);
                assert(part[i - from] == c);
                assert(part.contains(c));
                let found = part.index_of_first(c).unwrap();
                assert(part[found] == c);
                assert(found == i - from);
            }
            return Some(i);
        }
        i += 1;
    }
    proof {
        part.index_of_first_ensures(c);
        if part.contains(c) {
            let found = part.index_of_first(c).unwrap();
            assert(part[found] == c);
        }
    }
    None
}

/// Whether `v[from..to]` is the text `other`.
pub fn same_range(v: &Vec<char>, from: usize, to: usize, other: &Vec<char>) -> (r: bool)
    requires
        from <= to <= v.len(),
    ensures
        r == (v@.subrange(from as int, to as int) == other@),
{
    if to - from != other.len() {
        return false;
    }
    let r = matches_at(v, other, from);
    assert(v@.subrange(from as int, from + other@.len()) =~= v@.subrange(from as int, to as int));
    r
}

/// `content` without the lines that are equal to `line`: the lines that
/// are left, with a line feed between every two of them.
pub open spec fn spec_remove_line(content: Seq<char>, line: Seq<char>) -> Seq<char> {
    join_lines(without_line(spec_lines(content), line))
}

/// Removes from `content` the lines that are equal to `line`.
pub fn remove_line(content: &str, line: &str) -> (r: String)
    ensures
        r@ == spec_remove_line(content@, line@),
{
    let chars = chars_of(content);
    let wanted = chars_of(line);
    let len = chars.len();
    let mut out = String::new();
    let mut kept_any = false;
    let mut pos: usize = 0;
    let ghost mut done: Seq<Seq<char>> = Seq::empty();
    proof {
        assert(content@.skip(0) =~= content@);
        assert(done + spec_lines(content@) =~= spec_lines(content@));
    }
    while pos < len
        invariant
            pos <= len,
            len == chars.len(),
            chars@ == content@,
            wanted@ == line@,
            done + spec_lines(content@.skip(pos as int)) == spec_lines(content@),
            out@ == join_lines(without_line(done, line@)),
            kept_any == (without_line(done, line@).len() > 0),
        decreases len - pos,
    {
        let ghost rest = content@.skip(pos as int);
        let feed = find_from(&chars, pos, '\n');
        let (end, next): (usize, usize) = match feed {
            Some(k) => {
                if k > pos && chars[k - 1] == '\r' {
                    (k - 1, k + 1)
                } else {
                    (k, k + 1)
                }
            },
            None => (len, len),
        };
        let ghost this = content@.subrange(pos as int, end as int);
        proof {
            match feed {
                Some(k) => {
                    assert(rest.take(k - pos) =~= content@.subrange(pos as int, k as int));
                    assert(rest.skip(k - pos + 1) =~= content@.skip(k + 1));
                    assert(without_return(rest.take(k - pos)) =~= this);
                },
                None => {
                    assert(rest =~= this);
                    assert(content@.skip(len as int) =~= Seq::<char>::empty());
                },
            }
            assert(spec_lines(rest) =~= seq![this] + spec_lines(content@.skip(next as int)));
            assert(done.push(this) + spec_lines(content@.skip(next as int)) =~= done + spec_lines(
                rest,
            ));
            assert(done.push(this).drop_last() =~= done);
        }
        if !same_range(&chars, pos, end, &wanted) {
            let ghost kept = without_line(done, line@);
            if kept_any {
                out.append("\n");
            }
            out.append(content.substring_char(pos, end));
            proof {
                reveal_strlit("\n");
                assert("\n"@ =~= seq!['\n']);
                assert(kept.push(this).drop_last() =~= kept);
                assert(out@ =~= join_lines(kept.push(this)));
            }
            kept_any = true;
        }
        proof {
            done = done.push(this);
        }
        pos = next;
    }
    proof {
        assert(content@.skip(len as int) =~= Seq::<char>::empty());
        assert(done + Seq::<Seq<char>>::empty() =~= done);
    }
    out
}

/// Whether `c` is one of the ASCII digits `0` to `9`.
pub open spec fn is_digit(c: char) -> bool {
    '0' <= c <= '9'
}

/// The number that the digit `c` stands for; `0` for any other character.
pub open spec fn digit_value(c: char) -> nat {
    if is_digit(c) {
        (c as int - '0' as int) as nat
    } else {
        0
    }
}

/// Whether every character of `s` is an ASCII digit.
pub open spec fn all_digits(s: Seq<char>) -> bool {
    forall|i: int| 0 <= i < s.len() ==> is_digit(#[trigger] s[i])
}

/// The number written by the decimal digits `s`, most significant first.
pub open spec fn decimal_value(s: Seq<char>) -> nat
    decreases s.len(),
{
    if s.len() == 0 {
        0
    } else {
        decimal_value(s.drop_last()) * 10 + digit_value(s.last())
    }
}

/// What is left of `s` once one leading plus sign, if any, is dropped.
pub open spec fn unsigned_digits(s: Seq<char>) -> Seq<char> {
    if s.len() > 0 && s[0] == '+' {
        s.skip(1)
    } else {
        s
    }
}

/// The `u32` that `s` denotes: an optional plus sign followed by one or more
/// decimal digits whose value fits in 32 bits. `None` for anything else.
pub open spec fn spec_parse_u32(s: Seq<char>) -> Option<u32> {
    let digits = unsigned_digits(s);
    if digits.len() > 0 && all_digits(digits) && decimal_value(digits) <= u32::MAX {
        Some(decimal_value(digits) as u32)
    } else {
        None
    }
}

/// A prefix of a digit string never denotes more than the whole string.
pub proof fn lemma_decimal_value_prefix(s: Seq<char>, k: int)
    requires
        0 <= k <= s.len(),
    ensures
        decimal_value(s.take(k)) <= decimal_value(s),
    decreases s.len() - k,
{
    if k == s.len() {
        assert(s.take(k) =~= s);
    } else {
        lemma_decimal_value_prefix(s, k + 1);
        assert(s.take(k + 1).drop_last() =~= s.take(k));
    }
}

/// Reads the characters `v[from..to]` as an unsigned 32-bit decimal number.
pub fn parse_u32(v: &Vec<char>, from: usize, to: usize) -> (r: Option<u32>)
    requires
        from <= to <= v.len(),
    ensures
        r == spec_parse_u32(v@.subrange(from as int, to as int)),
{
    let ghost whole = v@.subrange(from as int, to as int);
    let start: usize = if from < to && v[from] == '+' {
        from + 1
    } else {
        from
    };
    let ghost digits = unsigned_digits(whole);
    assert(digits =~= v@.subrange(start as int, to as int));
    if start == to {
        return None;
    }
    let mut acc: u32 = 0;
    let mut i: usize = start;
    while i < to
        invariant
            from <= start <= i <= to <= v.len(),
            whole == v@.subrange(from as int, to as int),
            digits == unsigned_digits(whole),
            digits == v@.subrange(start as int, to as int),
            all_digits(digits.take(i - start)),
            acc == decimal_value(digits.take(i - start)),
        decreases to - i,
    {
        let c = v[i];
        if c < '0' || c > '9' {
            assert(!is_digit(digits[i - start]));
            return None;
        }
        let d: u32 = c as u32 - '0' as u32;
        proof {
            assert(digits.take(i + 1 - start).drop_last() =~= digits.take(i - start));
            assert(digits.take(i + 1 - start).last() == c);
            assert(d == digit_value(c));
            lemma_decimal_value_prefix(digits, i + 1 - start);
        }
        if acc > (u32::MAX - d) / 10 {
            assert(decimal_value(digits.take(i + 1 - start)) > u32::MAX);
            return None;
        }
        acc = acc * 10 + d;
        i += 1;
    }
    assert(digits.take(to - start) =~= digits);
    Some(acc)
}

/// The character that writes the digit `d`.
pub open spec fn digit_char(d: nat) -> char
    recommends
        d < 10,
{
    (d + 48) as char
}

/// The decimal digits of `n`, most significant first, without leading zeros
/// (`0` itself is written as one digit).
pub open spec fn decimal_digits(n: nat) -> Seq<char>
    decreases n,
{
    if n < 10 {
        seq![digit_char(n)]
    } else {
        decimal_digits(n / 10).push(digit_char(n % 10))
    }
}

/// The one-character string for the digit `d`.
fn digit_str(d: u32) -> (r: &'static str)
    requires
        d < 10,
    ensures
        r@ == seq![digit_char(d as nat)],
{
    proof {
        reveal_strlit("0");
        reveal_strlit("1");
        reveal_strlit("2");
        reveal_strlit("3");
        reveal_strlit("4");
        reveal_strlit("5");
        reveal_strlit("6");
        reveal_strlit("7");
        reveal_strlit("8");
        reveal_strlit("9");
    }
    let r = if d == 0 {
        "0"
    } else if d == 1 {
        "1"
    } else if d == 2 {
        "2"
    } else if d == 3 {
        "3"
    } else if d == 4 {
        "4"
    } else if d == 5 {
        "5"
    } else if d == 6 {
        "6"
    } else if d == 7 {
        "7"
    } else if d == 8 {
        "8"
    } else {
        "9"
    };
    assert(r@ =~= seq![digit_char(d as nat)]);
    r
}

/// Appends the decimal digits of `n` to `out`.
pub fn push_decimal(out: &mut String, n: u32)
    ensures
        final(out)@ == old(out)@ + decimal_digits(n as nat),
    decreases n,
{
    if n >= 10 {
        push_decimal(out, n / 10);
    }
    out.append(digit_str(n % 10));
    assert(final(out)@ =~= old(out)@ + decimal_digits(n as nat)) by {
        if n >= 10 {
            assert(old(out)@ + decimal_digits((n / 10) as nat) + seq![digit_char((n % 10) as nat)]
                =~= old(out)@ + decimal_digits((n / 10) as nat).push(digit_char((n % 10) as nat)));
        }
    }
}

/// The decimal digits of a number are digits, and say the number.
pub proof fn lemma_decimal_digits(n: nat)
    ensures
        decimal_digits(n).len() > 0,
        all_digits(decimal_digits(n)),
        decimal_value(decimal_digits(n)) == n,
    decreases n,
{
    if n < 10 {
        let s = decimal_digits(n);
        assert(s.drop_last() =~= Seq::<char>::empty());
        assert(decimal_value(s.drop_last()) == 0);
    } else {
        lemma_decimal_digits(n / 10);
        let s = decimal_digits(n);
        assert(s.drop_last() =~= decimal_digits(n / 10));
        assert forall|i: int| 0 <= i < s.len() implies is_digit(#[trigger] s[i]) by {
            if i < s.len() - 1 {
                assert(s[i] == decimal_digits(n / 10)[i]);
            }
        }
    }
}

/// The decimal digits of a number that fits in 32 bits read back as it.
pub proof fn lemma_parse_decimal_digits(n: nat)
    requires
        n <= u32::MAX,
    ensures
        spec_parse_u32(decimal_digits(n)) == Some(n as u32),
{
    lemma_decimal_digits(n);
    assert(is_digit(decimal_digits(n)[0]));
}

} // verus!
