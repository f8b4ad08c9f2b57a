use vstd::prelude::*;
use crate::error::{Error, Result};
use crate::text::{chars_of, digit_char, find_char, find_from, lemma_find_from, string_of};

verus! {

/// The file extension of the plugin libraries that this (Linux) build loads.
pub const EXTENSION: &'static str = "so";

/// Whether `path` has a file extension, as `std::path::Path::extension`
/// sees it under the Unix path rules of this build.
pub uninterp spec fn path_has_extension(path: Seq<char>) -> bool;

/// `path` with its extension set to `extension`, as
/// `std::path::PathBuf::set_extension` makes it under the Unix path rules of
/// this build.
pub uninterp spec fn path_with_extension(path: Seq<char>, extension: Seq<char>) -> Seq<char>;

/// Whether two paths are equal as `std::path::Path` compares them: by their
/// components under the Unix path rules of this build, so that `a//b` and
/// `a/b` are equal.
pub uninterp spec fn paths_equal(a: Seq<char>, b: Seq<char>) -> bool;

/// Compares two paths with `PartialEq for std::path::Path`; the result is
/// named `paths_equal`. A path equals itself.
#[verifier::external_body]
fn same_path(a: &str, b: &str) -> (r: bool)
    ensures
        r == paths_equal(a@, b@),
        a@ == b@ ==> r,
{
    std::path::Path::new(a) == std::path::Path::new(b)
}

/// Calls `std::path::Path::extension` and tells whether it found one; the
/// result is named `path_has_extension`.
#[verifier::external_body]
fn has_extension(path: &str) -> (b: bool)
    ensures
        b == path_has_extension(path@),
{
    std::path::Path::new(path).extension().is_some()
}

/// Calls `std::path::PathBuf::set_extension` on `path`; the result is named
/// `path_with_extension`. `set_extension` panics on an extension that holds a
/// path separator, so the extension may hold no `/`.
#[verifier::external_body]
fn with_extension(path: &str, extension: &str) -> (r: String)
    requires
        forall|k: int| 0 <= k < extension@.len() ==> extension@[k] != '/',
    ensures
        r@ == path_with_extension(path@, extension@),
{
    let mut buf = std::path::PathBuf::from(path);
    buf.set_extension(extension);
    buf.to_string_lossy().into_owned()
}

/// The value of a hexadecimal digit, either case.
pub open spec fn hex_digit(c: char) -> Option<nat> {
    if '0' <= c && c <= '9' {
        Some((c as u32 - '0' as u32) as nat)
    } else if 'a' <= c && c <= 'f' {
        Some((c as u32 - 'a' as u32 + 10) as nat)
    } else if 'A' <= c && c <= 'F' {
        Some((c as u32 - 'A' as u32 + 10) as nat)
    } else {
        None
    }
}

/// The small letter among `a` to `f` that writes the digit `10 + d`.
pub open spec fn small_hex_letter(d: nat) -> char {
    if d == 0 { 'a' } else if d == 1 { 'b' } else if d == 2 { 'c' } else if d == 3 { 'd' }
    else if d == 4 { 'e' } else { 'f' }
}

/// The capital letter among `A` to `F` that writes the digit `10 + d`.
pub open spec fn capital_hex_letter(d: nat) -> char {
    if d == 0 { 'A' } else if d == 1 { 'B' } else if d == 2 { 'C' } else if d == 3 { 'D' }
    else if d == 4 { 'E' } else { 'F' }
}

/// A character is a hexadecimal digit of value `v` exactly when it is the
/// decimal numeral of `v` (for `v` below 10) or the small or capital letter
/// `a` to `f` for `v` from 10 to 15; no other character is a digit.
pub proof fn law_hex_digit(c: char, v: nat)
    ensures
        hex_digit(c) == Some(v) <==> ((v < 10 && c == digit_char(v)) || (10 <= v < 16 && (c
            == small_hex_letter((v - 10) as nat) || c == capital_hex_letter((v - 10) as nat)))),
        hex_digit(c) is None <==> (forall|d: nat| d < 10 ==> c != #[trigger] digit_char(d)) && (
        forall|d: nat| d < 6 ==> c != #[trigger] small_hex_letter(d) && c != capital_hex_letter(d)),
{
    if hex_digit(c) is None {
        assert forall|d: nat| d < 10 implies c != #[trigger] digit_char(d) by {}
        assert forall|d: nat| d < 6 implies c != #[trigger] small_hex_letter(d) && c != capital_hex_letter(d) by {}
    } else {
        let u = hex_digit(c).unwrap();
        if u < 10 {
            assert(c == digit_char(u));
        } else {
            assert(c == small_hex_letter((u - 10) as nat) || c == capital_hex_letter((u - 10) as nat));
        }
    }
}

/// Every character of `s` is a hexadecimal digit.
pub open spec fn all_hex(s: Seq<char>) -> bool {
    forall|k: int| 0 <= k < s.len() ==> (#[trigger] hex_digit(s[k])) is Some
}

/// The number that the hexadecimal digits `s` write.
pub open spec fn hex_value(s: Seq<char>) -> nat
    decreases s.len(),
{
    if s.len() == 0 {
        0
    } else {
        hex_value(s.drop_last()) * 16 + hex_digit(s.last()).unwrap_or(0)
    }
}

/// `u64::from_str_radix(s, 16)`: an optional `+`, then one or more
/// hexadecimal digits whose value fits in a `u64`; anything else fails.
pub open spec fn radix16(s: Seq<char>) -> Option<u64> {
    let digits = if s.len() > 0 && s[0] == '+' { s.drop_first() } else { s };
    if digits.len() == 0 || !all_hex(digits) || hex_value(digits) > u64::MAX {
        None
    } else {
        Some(hex_value(digits) as u64)
    }
}

/// `s` with every leading `0x` removed, as `trim_start_matches("0x")` does.
pub open spec fn strip_hex_prefix(s: Seq<char>) -> Seq<char>
    decreases s.len(),
{
    if s.len() >= 2 && s[0] == '0' && s[1] == 'x' {
        strip_hex_prefix(s.skip(2))
    } else {
        s
    }
}

proof fn lemma_hex_value_grows(s: Seq<char>, i: int, j: int)
    requires
        0 <= i <= j <= s.len(),
    ensures
        hex_value(s.take(i)) <= hex_value(s.take(j)),
    decreases j - i,
{
    if i < j {
        lemma_hex_value_grows(s, i, j - 1);
        assert(s.take(j).drop_last() =~= s.take(j - 1));
    }
}

fn hex_digit_of(c: char) -> (r: Option<u64>)
    ensures
        r matches Some(v) ==> hex_digit(c) == Some(v as nat),
        r is None ==> hex_digit(c) is None,
{
    if '0' <= c && c <= '9' {
        Some((c as u32 - '0' as u32) as u64)
    } else if 'a' <= c && c <= 'f' {
        Some((c as u32 - 'a' as u32 + 10) as u64)
    } else if 'A' <= c && c <= 'F' {
        Some((c as u32 - 'A' as u32 + 10) as u64)
    } else {
        None
    }
}

/// Reads `s` as `u64::from_str_radix(s, 16)` does, as `radix16` says.
#[verifier::loop_isolation(false)]
pub fn parse_hex_u64(s: &[char]) -> (r: Option<u64>)
    ensures
        r == radix16(s@),
{
    let start: usize = if s.len() > 0 && s[0] == '+' { 1 } else { 0 };
    let ghost digits = s@.skip(start as int);
    assert(digits =~= (if s@.len() > 0 && s@[0] == '+' { s@.drop_first() } else { s@ }));
    if start == s.len() {
        return None;
    }
    let mut value: u64 = 0;
    let mut i = start;
    while i < s.len()
        invariant
            start <= i <= s@.len(),
            digits == s@.skip(start as int),
            all_hex(digits.take(i - start)),
            value == hex_value(digits.take(i - start)),
        decreases s@.len() - i,
    {
        let ghost k = i - start;
        assert(digits.take(k + 1).drop_last() =~= digits.take(k));
        assert(digits.take(k + 1).last() == s@[i as int]);
        match hex_digit_of(s[i]) {
            None => {
                assert(!all_hex(digits));
                return None;
            },
            Some(d) => {
                let shifted = value.checked_mul(16);
                match shifted {
                    None => {
                        proof {
                            lemma_hex_value_grows(digits, k + 1, digits.len() as int);
                            assert(digits.take(digits.len() as int) =~= digits);
                        }
                        return None;
                    },
                    Some(sv) => match sv.checked_add(d) {
                        None => {
                            proof {
                                lemma_hex_value_grows(digits, k + 1, digits.len() as int);
                                assert(digits.take(digits.len() as int) =~= digits);
                            }
                            return None;
                        },
                        Some(nv) => {
                            assert forall|m: int| 0 <= m < k + 1 implies (#[trigger] hex_digit(
                                digits.take(k + 1)[m],
                            )) is Some by {
                                if m < k {
                                    assert(digits.take(k + 1)[m] == digits.take(k)[m]);
                                }
                            }
                            value = nv;
                        },
                    },
                }
            },
        }
        i += 1;
    }
    assert(digits.take(digits.len() as int) =~= digits);
    Some(value)
}

/// Removes every leading `0x` from `s[start..]`, as `strip_hex_prefix` says.
fn skip_hex_prefix(s: &[char], start: usize) -> (k: usize)
    requires
        start <= s@.len(),
    ensures
        start <= k <= s@.len(),
        s@.skip(k as int) == strip_hex_prefix(s@.skip(start as int)),
{
    let mut k = start;
    while s.len() - k >= 2 && s[k] == '0' && s[k + 1] == 'x'
        invariant
            start <= k <= s@.len(),
            strip_hex_prefix(s@.skip(k as int)) == strip_hex_prefix(s@.skip(start as int)),
        decreases s@.len() - k,
    {
        assert(s@.skip(k as int).skip(2) =~= s@.skip(k + 2));
        k += 2;
    }
    k
}

} // verus!

verus! {

/// Where a plugin library lies and the memory offset it is given.
#[derive(Debug, Clone, Eq)]
pub struct LimbSpec {
    path: String,
    offset: Option<u64>,
}

impl LimbSpec {
    /// The path of the library.
    pub closed spec fn path_text(&self) -> Seq<char> {
        self.path@
    }

    /// The offset, if one was given.
    pub closed spec fn offset_value(&self) -> Option<u64> {
        self.offset
    }

    /// A plugin at `path`, given `offset`.
    pub fn new(path: String, offset: Option<u64>) -> (r: Self)
        ensures
            r.path_text() == path@,
            r.offset_value() == offset,
    {
        LimbSpec { path, offset }
    }

    /// The path of the library.
    pub fn path(&self) -> (r: &String)
        ensures
            r@ == self.path_text(),
    {
        &self.path
    }

    /// The offset, if one was given.
    pub fn offset(&self) -> (r: Option<u64>)
        ensures
            r == self.offset_value(),
    {
        self.offset
    }
}

/// How `path@offset` splits: the path before the first `@` and the offset
/// after it, read in hexadecimal after any leading `0x`; `None` where that
/// offset does not read. Without an `@` the whole text is the path.
pub open spec fn split_limb(s: Seq<char>) -> Option<(Seq<char>, Option<u64>)> {
    let at = find_from(s, '@', 0);
    if at < s.len() {
        match radix16(strip_hex_prefix(s.skip(at + 1))) {
            Some(v) => Some((s.take(at), Some(v))),
            None => None,
        }
    } else {
        Some((s, None))
    }
}

/// The path a plugin is loaded from: the given path where it has an
/// extension, else that path with the library extension of this build.
pub open spec fn library_path(path: Seq<char>) -> Seq<char> {
    if path_has_extension(path) {
        path
    } else {
        path_with_extension(path, EXTENSION@)
    }
}

/// Reads a plugin argument `path[@offset]`, as `split_limb` and
/// `library_path` say; an offset that does not read fails with
/// `Error::Limb("Invalid offset in: {s}")`, these words as they stand.
pub fn parse_limb(s: &str) -> (r: Result<LimbSpec>)
    ensures
        split_limb(s@) is None ==> (r matches Err(Error::Limb(m)) && m@
            == "Invalid offset in: {s}"@),
        split_limb(s@) matches Some((path, offset)) ==> (r matches Ok(spec) && spec.path_text()
            == library_path(path) && spec.offset_value() == offset),
{
    let chars = chars_of(s);
    let at = find_char(chars.as_slice(), '@', 0);
    proof {
        lemma_find_from(s@, '@', 0);
    }
    let mut offset: Option<u64> = None;
    let path: String;
    if at < chars.len() {
        let mut head: Vec<char> = Vec::new();
        let mut i: usize = 0;
        while i < at
            invariant
                i <= at < chars@.len(),
                head@ == chars@.take(i as int),
            decreases at - i,
        {
            head.push(chars[i]);
            i += 1;
            assert(head@ =~= chars@.take(i as int));
        }
        path = string_of(head.as_slice());
        let start = skip_hex_prefix(chars.as_slice(), at + 1);
        let mut tail: Vec<char> = Vec::new();
        let mut j = start;
        while j < chars.len()
            invariant
                start <= j <= chars@.len(),
                tail@ == chars@.subrange(start as int, j as int),
            decreases chars@.len() - j,
        {
            tail.push(chars[j]);
            j += 1;
            assert(tail@ =~= chars@.subrange(start as int, j as int));
        }
        assert(tail@ =~= chars@.skip(start as int));
        match parse_hex_u64(tail.as_slice()) {
            Some(v) => {
                offset = Some(v);
            },
            None => {
                return Err(Error::Limb(String::from_str("Invalid offset in: {s}")));
            },
        }
    } else {
        path = String::from_str(s);
    }
    proof {
        reveal_strlit("so");
    }
    let full = if has_extension(path.as_str()) {
        path
    } else {
        with_extension(path.as_str(), EXTENSION)
    };
    Ok(LimbSpec::new(full, offset))
}

} // verus!

verus! {

impl std::str::FromStr for LimbSpec {
    type Err = Error;

    /// Reads a plugin argument, as `parse_limb` does.
    fn from_str(s: &str) -> (r: Result<Self>)
        ensures
            split_limb(s@) is None ==> (r matches Err(Error::Limb(m)) && m@
                == "Invalid offset in: {s}"@),
            split_limb(s@) matches Some((path, offset)) ==> (r matches Ok(spec)
                && spec.path_text() == library_path(path) && spec.offset_value() == offset),
    {
        parse_limb(s)
    }
}

} // verus!

verus! {

impl<'a> TryFrom<&'a str> for LimbSpec {
    type Error = Error;

    /// Reads a plugin argument, as `parse_limb` does.
    fn try_from(s: &'a str) -> (r: Result<Self>)
        ensures
            split_limb(s@) is None ==> (r matches Err(Error::Limb(m)) && m@
                == "Invalid offset in: {s}"@),
            split_limb(s@) matches Some((path, offset)) ==> (r matches Ok(spec)
                && spec.path_text() == library_path(path) && spec.offset_value() == offset),
    {
        parse_limb(s)
    }
}

impl<'a> vstd::std_specs::convert::TryFromSpecImpl<&'a str> for LimbSpec {
    open spec fn obeys_try_from_spec() -> bool {
        false
    }

    open spec fn try_from_spec(v: &'a str) -> Result<Self> {
        arbitrary()
    }
}

impl TryFrom<String> for LimbSpec {
    type Error = Error;

    /// Reads a plugin argument, as `parse_limb` does.
    fn try_from(s: String) -> (r: Result<Self>)
        ensures
            split_limb(s@) is None ==> (r matches Err(Error::Limb(m)) && m@
                == "Invalid offset in: {s}"@),
            split_limb(s@) matches Some((path, offset)) ==> (r matches Ok(spec)
                && spec.path_text() == library_path(path) && spec.offset_value() == offset),
    {
        parse_limb(s.as_str())
    }
}

impl vstd::std_specs::convert::TryFromSpecImpl<String> for LimbSpec {
    open spec fn obeys_try_from_spec() -> bool {
        false
    }

    open spec fn try_from_spec(v: String) -> Result<Self> {
        arbitrary()
    }
}

} // verus!

verus! {

impl PartialEq for LimbSpec {
    /// Equal offsets and paths equal as paths (by their components).
    fn eq(&self, other: &Self) -> (r: bool) {
        self.offset == other.offset && same_path(self.path.as_str(), other.path.as_str())
    }
}

impl vstd::std_specs::cmp::PartialEqSpecImpl for LimbSpec {
    open spec fn obeys_eq_spec() -> bool {
        true
    }

    open spec fn eq_spec(&self, other: &Self) -> bool {
        self.offset_value() == other.offset_value() && paths_equal(
            self.path_text(),
            other.path_text(),
        )
    }
}

} // verus!
