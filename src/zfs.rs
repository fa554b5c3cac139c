//! ZFS: the names that Oxide gives its properties, the arguments of the commands that
//! set them, and the reading of what `zfs get` and `zfs list` print.

use vstd::prelude::*;
use vstd::string::{StrSliceExecFns, StringExecFns};
use crate::text::string_of;
use crate::datasets::DatasetUuid;

verus! {

/// Where a ZFS property's value comes from.
#[derive(Debug, Copy, Clone, PartialEq, Eq, Structural)]
pub enum PropertySource {
    Local,
    Default,
    Inherited,
    Temporary,
    NoSource,
}

pub open spec fn property_source_text(p: PropertySource) -> Seq<char> {
    match p {
        PropertySource::Local => "local"@,
        PropertySource::Default => "default"@,
        PropertySource::Inherited => "inherited"@,
        PropertySource::Temporary => "temporary"@,
        PropertySource::NoSource => "none"@,
    }
}

impl PropertySource {
    /// The name that `zfs get -s` takes.
    pub fn as_str(&self) -> (r: &'static str)
        ensures
            r@ == property_source_text(*self),
    {
        match self {
            PropertySource::Local => "local",
            PropertySource::Default => "default",
            PropertySource::Inherited => "inherited",
            PropertySource::Temporary => "temporary",
            PropertySource::NoSource => "none",
        }
    }
}

/// A read-only snapshot of a ZFS filesystem.
#[derive(Clone, Debug)]
pub struct Snapshot {
    pub filesystem: String,
    pub snap_name: String,
}

impl Snapshot {
    /// The snapshot's full name, `filesystem@snap_name`.
    pub fn to_text(&self) -> (r: String)
        ensures
            r@ == self.filesystem@ + "@"@ + self.snap_name@,
    {
        let mut r = string_of(self.filesystem.as_str());
        r.append("@");
        r.append(self.snap_name.as_str());
        r
    }
}

/// Why running a command failed, as the command runner reported it.
#[derive(Debug)]
pub struct ExecutionError {
    pub message: String,
}

/// Error of setting a property value.
#[derive(Debug)]
pub struct SetValueError {
    pub filesystem: String,
    pub name: String,
    pub value: String,
    pub err: ExecutionError,
}

/// Why getting a property value failed.
#[derive(Debug)]
pub enum GetValueErrorRaw {
    Execution(ExecutionError),
    MissingValue,
}

/// Error of getting a property value.
#[derive(Debug)]
pub struct GetValueError {
    pub filesystem: String,
    pub name: String,
    pub err: GetValueErrorRaw,
}

/// The characters that Rust's `char::is_whitespace` accepts (Unicode White_Space).
pub open spec fn is_white_space(c: char) -> bool {
    ||| c == '\t' || c == '\n' || c == '\u{0B}' || c == '\u{0C}' || c == '\r' || c == ' '
    ||| c == '\u{85}' || c == '\u{A0}' || c == '\u{1680}'
    ||| ('\u{2000}' <= c && c <= '\u{200A}')
    ||| c == '\u{2028}' || c == '\u{2029}' || c == '\u{202F}' || c == '\u{205F}' || c == '\u{3000}'
}

pub fn white_space(c: char) -> (r: bool)
    ensures
        r == is_white_space(c),
{
    c == '\t' || c == '\n' || c == '\u{0B}' || c == '\u{0C}' || c == '\r' || c == ' ' || c
        == '\u{85}' || c == '\u{A0}' || c == '\u{1680}' || ('\u{2000}' <= c && c <= '\u{200A}')
        || c == '\u{2028}' || c == '\u{2029}' || c == '\u{202F}' || c == '\u{205F}' || c
        == '\u{3000}'
}

/// `s` without its leading white space.
pub open spec fn trim_start(s: Seq<char>) -> Seq<char>
    decreases s.len(),
{
    if s.len() > 0 && is_white_space(s[0]) {
        trim_start(s.drop_first())
    } else {
        s
    }
}

/// `s` without its trailing white space.
pub open spec fn trim_end(s: Seq<char>) -> Seq<char>
    decreases s.len(),
{
    if s.len() > 0 && is_white_space(s.last()) {
        trim_end(s.drop_last())
    } else {
        s
    }
}

/// `s` without leading and trailing white space, as `str::trim` gives it.
pub open spec fn trimmed(s: Seq<char>) -> Seq<char> {
    trim_end(trim_start(s))
}

/// The text of `s` before its first line feed.
pub open spec fn first_line(s: Seq<char>) -> Seq<char>
    decreases s.len(),
{
    if s.len() == 0 || s[0] == '\n' {
        Seq::empty()
    } else {
        seq![s[0]] + first_line(s.drop_first())
    }
}

/// `s` without leading and trailing white space.
pub fn trim(s: &str) -> (r: &str)
    ensures
        r@ == trimmed(s@),
{
    let n = s.unicode_len();
    proof {
        assert(s@.subrange(0, n as int) =~= s@);
    }
    let mut i: usize = 0;
    while i < n && white_space(s.get_char(i))
        invariant
            n == s@.len(),
            i <= n,
            trim_start(s@.subrange(i as int, n as int)) == trim_start(s@),
        decreases n - i,
    {
        proof {
            assert(s@.subrange(i + 1, n as int) =~= s@.subrange(i as int, n as int).drop_first());
        }
        i = i + 1;
    }
    let mut j: usize = n;
    while j > i && white_space(s.get_char(j - 1))
        invariant
            n == s@.len(),
            i <= j <= n,
            trim_start(s@) == s@.subrange(i as int, n as int),
            trim_end(s@.subrange(i as int, j as int)) == trimmed(s@),
        decreases j - i,
    {
        proof {
            assert(s@.subrange(i as int, j - 1) =~= s@.subrange(i as int, j as int).drop_last());
        }
        j = j - 1;
    }
    s.substring_char(i, j)
}

/// The text of `s` before its first line feed.
pub fn line_one(s: &str) -> (r: &str)
    ensures
        r@ == first_line(s@),
{
    let n = s.unicode_len();
    let mut i: usize = 0;
    while i < n && s.get_char(i) != '\n'
        invariant
            n == s@.len(),
            i <= n,
            forall|k: int| 0 <= k < i ==> s@[k] != '\n',
        decreases n - i,
    {
        i = i + 1;
    }
    proof {
        lemma_first_line(s@, i as int);
    }
    s.substring_char(0, i)
}

/// The first line of `s` ends at the first line feed, or at the end.
proof fn lemma_first_line(s: Seq<char>, i: int)
    requires
        0 <= i <= s.len(),
        forall|k: int| 0 <= k < i ==> s[k] != '\n',
        i == s.len() || s[i] == '\n',
    ensures
        first_line(s) == s.subrange(0, i),
    decreases s.len(),
{
    if s.len() == 0 || s[0] == '\n' {
        assert(s.subrange(0, i) =~= Seq::<char>::empty());
    } else {
        lemma_first_line(s.drop_first(), i - 1);
        assert(seq![s[0]] + s.drop_first().subrange(0, i - 1) =~= s.subrange(0, i));
    }
}

/// The value that `zfs get -Ho value` printed for one property: the first line of its
/// output, without surrounding white space.
pub open spec fn printed_value(output: Seq<char>) -> Seq<char> {
    trimmed(first_line(trimmed(output)))
}

/// Runs the `zfs` commands for the Oxide-managed properties of a filesystem: this
/// library builds their arguments and reads their output; the caller runs them.
pub struct Zfs {}

impl Zfs {
    /// The name under which ZFS stores the Oxide-managed property `name`.
    pub fn oxide_property(name: &str) -> (r: String)
        ensures
            r@ == "oxide:"@ + name@,
    {
        let mut r = string_of("oxide:");
        r.append(name);
        r
    }

    /// The arguments of the privileged command (`pfexec`) that sets the Oxide-managed
    /// property `name` of `filesystem_name` to `value`.
    pub fn set_oxide_value(filesystem_name: &str, name: &str, value: &str) -> (r: Vec<String>)
        ensures
            r@.len() == 4,
            r@[0]@ == "/usr/sbin/zfs"@,
            r@[1]@ == "set"@,
            r@[2]@ == "oxide:"@ + name@ + "="@ + value@,
            r@[3]@ == filesystem_name@,
    {
        let mut assignment = Self::oxide_property(name);
        assignment.append("=");
        assignment.append(value);
        let mut r: Vec<String> = Vec::new();
        r.push(string_of("/usr/sbin/zfs"));
        r.push(string_of("set"));
        r.push(assignment);
        r.push(string_of(filesystem_name));
        r
    }

    /// Reads what `zfs get -Ho value <name> <filesystem_name>` printed: the value, or
    /// `MissingValue` where ZFS printed `-` for it.
    pub fn get_value(filesystem_name: &str, name: &str, output: &str) -> (r: Result<String, GetValueError>)
        ensures
            r is Err <==> printed_value(output@) == "-"@,
            r matches Ok(v) ==> v@ == printed_value(output@),
            r matches Err(e) ==> e.filesystem@ == filesystem_name@ && e.name@ == name@
                && e.err is MissingValue,
    {
        let value = trim(line_one(trim(output)));
        proof {
            reveal_strlit("-");
        }
        if value.unicode_len() == 1 && value.get_char(0) == '-' {
            proof {
                assert(value@ =~= "-"@);
            }
            Err(
                GetValueError {
                    filesystem: string_of(filesystem_name),
                    name: string_of(name),
                    err: GetValueErrorRaw::MissingValue,
                },
            )
        } else {
            Ok(string_of(value))
        }
    }

    /// Reads what `zfs get -Ho value -s local oxide:<name> <filesystem_name>` printed
    /// for the Oxide-managed property `name`.
    pub fn get_oxide_value(filesystem_name: &str, name: &str, output: &str) -> (r: Result<String, GetValueError>)
        ensures
            r is Err <==> printed_value(output@) == "-"@,
            r matches Ok(v) ==> v@ == printed_value(output@),
            r matches Err(e) ==> e.filesystem@ == filesystem_name@ && e.name@ == "oxide:"@ + name@
                && e.err is MissingValue,
    {
        let property = Self::oxide_property(name);
        Self::get_value(filesystem_name, property.as_str(), output)
    }
}

/// Where the word that starts at or after `i` begins: the first position at or after
/// `i` that does not hold white space (or the end).
pub open spec fn skip_white_space(s: Seq<char>, i: int) -> int
    decreases s.len() - i,
{
    if 0 <= i < s.len() && is_white_space(s[i]) {
        skip_white_space(s, i + 1)
    } else {
        i
    }
}

/// Where the word that begins at `i` ends: the first position at or after `i` that
/// holds white space (or the end).
pub open spec fn word_end(s: Seq<char>, i: int) -> int
    decreases s.len() - i,
{
    if 0 <= i < s.len() && !is_white_space(s[i]) {
        word_end(s, i + 1)
    } else {
        i
    }
}

/// The `k`-th word (counting from 0) of `s` at or after position `from`, where words
/// are separated by white space as `str::split_whitespace` separates them.
pub open spec fn nth_word(s: Seq<char>, from: int, k: nat) -> Option<Seq<char>>
    decreases k,
{
    let start = skip_white_space(s, from);
    if start >= s.len() {
        None
    } else if k == 0 {
        Some(s.subrange(start, word_end(s, start)))
    } else {
        nth_word(s, word_end(s, start), (k - 1) as nat)
    }
}

proof fn lemma_skip_bounds(s: Seq<char>, i: int)
    requires
        0 <= i <= s.len(),
    ensures
        i <= skip_white_space(s, i) <= s.len(),
    decreases s.len() - i,
{
    if i < s.len() && is_white_space(s[i]) {
        lemma_skip_bounds(s, i + 1);
    }
}

proof fn lemma_word_end_bounds(s: Seq<char>, i: int)
    requires
        0 <= i <= s.len(),
    ensures
        i <= word_end(s, i) <= s.len(),
    decreases s.len() - i,
{
    if i < s.len() && !is_white_space(s[i]) {
        lemma_word_end_bounds(s, i + 1);
    }
}

/// The position of the next word at or after `i`.
fn skip_white(s: &str, i: usize) -> (r: usize)
    requires
        i <= s@.len(),
    ensures
        r as int == skip_white_space(s@, i as int),
        i <= r <= s@.len(),
{
    let n = s.unicode_len();
    let mut j = i;
    while j < n && white_space(s.get_char(j))
        invariant
            n == s@.len(),
            i <= j <= n,
            skip_white_space(s@, j as int) == skip_white_space(s@, i as int),
        decreases n - j,
    {
        j = j + 1;
    }
    j
}

/// The end of the word that begins at `i`.
fn end_of_word(s: &str, i: usize) -> (r: usize)
    requires
        i <= s@.len(),
    ensures
        r as int == word_end(s@, i as int),
        i <= r <= s@.len(),
{
    let n = s.unicode_len();
    let mut j = i;
    while j < n && !white_space(s.get_char(j))
        invariant
            n == s@.len(),
            i <= j <= n,
            word_end(s@, j as int) == word_end(s@, i as int),
        decreases n - j,
    {
        j = j + 1;
    }
    j
}

/// The next word at or after `from`, with the position where it ends.
fn next_word(s: &str, from: usize) -> (r: Option<(&str, usize)>)
    requires
        from <= s@.len(),
    ensures
        match r {
            None => nth_word(s@, from as int, 0) is None,
            Some((w, end)) => nth_word(s@, from as int, 0) == Some(w@) && end as int == word_end(
                s@,
                skip_white_space(s@, from as int),
            ) && from <= end <= s@.len(),
        },
{
    let start = skip_white(s, from);
    if start >= s.unicode_len() {
        return None;
    }
    let end = end_of_word(s, start);
    Some((s.substring_char(start, end), end))
}

/// Why an integer could not be read, as `core::num::IntErrorKind` names it.
#[derive(Debug, Clone, Copy, PartialEq, Eq, Structural)]
pub enum IntErrorKind {
    Empty,
    InvalidDigit,
    PosOverflow,
}

pub open spec fn is_digit(c: char) -> bool {
    '0' <= c && c <= '9'
}

pub open spec fn digit_value(c: char) -> nat {
    (c as int - '0' as int) as nat
}

/// The digits of `w` from position `i` on, read after the value `acc`, as
/// `u64::from_str` reads them: the first character that is not a digit is an invalid
/// digit, and a value above `u64::MAX` is an overflow.
pub open spec fn read_digits(w: Seq<char>, i: int, acc: nat) -> Result<nat, IntErrorKind>
    decreases w.len() - i,
{
    if i >= w.len() || i < 0 {
        Ok(acc)
    } else if !is_digit(w[i]) {
        Err(IntErrorKind::InvalidDigit)
    } else if acc * 10 + digit_value(w[i]) > u64::MAX as nat {
        Err(IntErrorKind::PosOverflow)
    } else {
        read_digits(w, i + 1, acc * 10 + digit_value(w[i]))
    }
}

/// `w` read as a `u64`, as `u64::from_str` reads it: decimal digits after an optional
/// `+`.
pub open spec fn read_u64(w: Seq<char>) -> Result<nat, IntErrorKind> {
    if w.len() == 0 {
        Err(IntErrorKind::Empty)
    } else if w[0] == '+' {
        if w.len() == 1 {
            Err(IntErrorKind::InvalidDigit)
        } else {
            read_digits(w, 1, 0)
        }
    } else {
        read_digits(w, 0, 0)
    }
}

/// Reads `w` as `u64::from_str` does.
pub fn parse_u64(w: &str) -> (r: Result<u64, IntErrorKind>)
    ensures
        match r {
            Ok(v) => read_u64(w@) == Ok::<nat, IntErrorKind>(v as nat),
            Err(e) => read_u64(w@) == Err::<nat, IntErrorKind>(e),
        },
{
    let n = w.unicode_len();
    if n == 0 {
        return Err(IntErrorKind::Empty);
    }
    let mut i: usize = 0;
    if w.get_char(0) == '+' {
        if n == 1 {
            return Err(IntErrorKind::InvalidDigit);
        }
        i = 1;
    }
    let mut acc: u64 = 0;
    while i < n
        invariant
            n == w@.len(),
            0 < n,
            i <= n,
            read_u64(w@) == read_digits(w@, i as int, acc as nat),
        decreases n - i,
    {
        let c = w.get_char(i);
        if !('0' <= c && c <= '9') {
            return Err(IntErrorKind::InvalidDigit);
        }
        let d = (c as u32 - '0' as u32) as u64;
        assert(d == digit_value(c));
        if acc > (u64::MAX - d) / 10 {
            proof {
                assert(acc * 10 + d > u64::MAX) by (nonlinear_arith)
                    requires
                        acc > (u64::MAX - d) / 10,
                        d <= 9,
                ;
            }
            return Err(IntErrorKind::PosOverflow);
        }
        proof {
            assert(acc * 10 + d <= u64::MAX) by (nonlinear_arith)
                requires
                    acc <= (u64::MAX - d) / 10,
                    d <= 9,
            ;
        }
        acc = acc * 10 + d;
        i = i + 1;
    }
    Ok(acc)
}

/// The value of the UUID text `s`, where `s` is one.
pub uninterp spec fn parsed_uuid(s: Seq<char>) -> Option<u128>;

/// Relies on `uuid::Uuid::parse_str`: whether text is a UUID, and which, depends on
/// the text alone.
#[verifier::external_body]
fn parse_uuid(s: &str) -> (r: Option<u128>)
    ensures
        r == parsed_uuid(s@),
{
    match uuid::Uuid::parse_str(s) {
        Ok(u) => Some(u.as_u128()),
        Err(_) => None,
    }
}

/// A number of bytes: at most `i64::MAX`.
#[derive(Debug, Clone, Copy, PartialEq, Eq, Structural)]
pub struct ByteCount {
    bytes: u64,
}

impl ByteCount {
    pub closed spec fn spec_bytes(&self) -> u64 {
        self.bytes
    }

    /// The count of `bytes`, where it fits.
    pub fn try_from_bytes(bytes: u64) -> (r: Option<ByteCount>)
        ensures
            r is Some <==> bytes <= i64::MAX,
            r matches Some(b) ==> b.spec_bytes() == bytes,
    {
        if bytes <= i64::MAX as u64 {
            Some(ByteCount { bytes })
        } else {
            None
        }
    }

    pub fn to_bytes(&self) -> (r: u64)
        ensures
            r == self.spec_bytes(),
    {
        self.bytes
    }
}

/// The properties of a dataset, as `zfs list -Hpo` prints them.
#[derive(Debug)]
pub struct DatasetProperties {
    /// The id of the dataset, where it has one.
    pub id: Option<DatasetUuid>,
    /// The full name of the dataset.
    pub name: String,
    /// Remaining space in the dataset and descendants.
    pub avail: ByteCount,
    /// Space used by dataset and descendants.
    pub used: ByteCount,
    /// Maximum space usable by dataset and descendants.
    pub quota: Option<ByteCount>,
    /// Minimum space guaranteed to dataset and descendants.
    pub reservation: Option<ByteCount>,
    /// The compression algorithm, as ZFS names it.
    pub compression: String,
}

/// The fields of a line of `zfs list -Hpo`, in order.
pub open spec fn dataset_field_name(i: nat) -> Seq<char> {
    if i == 0 { "UUID"@ } else if i == 1 { "'name'"@ } else if i == 2 { "'avail'"@ }
    else if i == 3 { "'used'"@ } else if i == 4 { "'quota'"@ } else if i == 5 { "'reservation'"@ }
    else { "'compression'"@ }
}

/// Why a line of `zfs list -Hpo` could not be read.
#[derive(Debug, Clone, Copy, PartialEq, Eq, Structural)]
pub enum DatasetPropertiesErrorKind {
    /// The line ends before the field with this place (0 to 6).
    Missing(u8),
    /// The first field is neither `-` nor a UUID.
    BadUuid,
    /// A number field is not a `u64`.
    BadNumber(IntErrorKind),
    /// A number field is above `i64::MAX`.
    TooLarge,
}

/// A line of `zfs list -Hpo` that could not be read.
#[derive(Debug)]
pub struct DatasetPropertiesParseError {
    pub input: String,
    pub kind: DatasetPropertiesErrorKind,
}

/// How reading one number field ends: with its value, or with an error.
pub open spec fn number_field(s: Seq<char>, k: nat, zero_is_none: bool) -> Result<Option<u64>, DatasetPropertiesErrorKind> {
    match nth_word(s, 0, k) {
        None => Err(DatasetPropertiesErrorKind::Missing(k as u8)),
        Some(w) => match read_u64(w) {
            Err(e) => Err(DatasetPropertiesErrorKind::BadNumber(e)),
            Ok(v) => if zero_is_none && v == 0 {
                Ok(None)
            } else if v > i64::MAX as nat {
                Err(DatasetPropertiesErrorKind::TooLarge)
            } else {
                Ok(Some(v as u64))
            },
        },
    }
}

/// The first error in reading the line `s`, field by field, if there is one.
pub open spec fn dataset_line_error(s: Seq<char>) -> Option<DatasetPropertiesErrorKind> {
    let uuid_error = match nth_word(s, 0, 0) {
        None => Some(DatasetPropertiesErrorKind::Missing(0)),
        Some(w) => if w != "-"@ && parsed_uuid(w) is None {
            Some(DatasetPropertiesErrorKind::BadUuid)
        } else {
            None
        },
    };
    if uuid_error is Some {
        uuid_error
    } else if nth_word(s, 0, 1) is None {
        Some(DatasetPropertiesErrorKind::Missing(1))
    } else if number_field(s, 2, false) is Err {
        Some(number_field(s, 2, false)->Err_0)
    } else if number_field(s, 3, false) is Err {
        Some(number_field(s, 3, false)->Err_0)
    } else if number_field(s, 4, true) is Err {
        Some(number_field(s, 4, true)->Err_0)
    } else if number_field(s, 5, true) is Err {
        Some(number_field(s, 5, true)->Err_0)
    } else if nth_word(s, 0, 6) is None {
        Some(DatasetPropertiesErrorKind::Missing(6))
    } else {
        None
    }
}

/// Reads the number field that starts at or after `from`, the `k`-th of the line.
fn read_number_field(s: &str, from: usize, k: u8, zero_is_none: bool, ghost_k: Ghost<nat>) -> (r: Result<(Option<ByteCount>, usize), DatasetPropertiesErrorKind>)
    requires
        from <= s@.len(),
        ghost_k@ == k as nat,
    ensures
        match r {
            Ok((v, end)) => {
                &&& nth_word(s@, from as int, 0) is Some
                &&& end as int == word_end(s@, skip_white_space(s@, from as int))
                &&& from <= end <= s@.len()
                &&& match read_u64(nth_word(s@, from as int, 0)->Some_0) {
                    Ok(n) => (zero_is_none && n == 0 && v is None) || (!(zero_is_none && n == 0)
                        && n <= i64::MAX as nat && v is Some && v->Some_0.spec_bytes() == n),
                    Err(_) => false,
                }
            },
            Err(e) => match nth_word(s@, from as int, 0) {
                None => e == DatasetPropertiesErrorKind::Missing(k),
                Some(w) => match read_u64(w) {
                    Err(ie) => e == DatasetPropertiesErrorKind::BadNumber(ie),
                    Ok(n) => !(zero_is_none && n == 0) && n > i64::MAX as nat && e
                        == DatasetPropertiesErrorKind::TooLarge,
                },
            },
        },
{
    match next_word(s, from) {
        None => Err(DatasetPropertiesErrorKind::Missing(k)),
        Some((w, end)) => match parse_u64(w) {
            Err(e) => Err(DatasetPropertiesErrorKind::BadNumber(e)),
            Ok(n) => {
                if zero_is_none && n == 0 {
                    Ok((None, end))
                } else {
                    match ByteCount::try_from_bytes(n) {
                        Some(b) => Ok((Some(b), end)),
                        None => Err(DatasetPropertiesErrorKind::TooLarge),
                    }
                }
            },
        },
    }
}

/// The words from the `k`-th on start where the `(k-1)`-th ends.
proof fn lemma_next_word(s: Seq<char>, from: int, k: nat)
    requires
        0 <= from <= s.len(),
        nth_word(s, from, 0) is Some,
    ensures
        nth_word(s, from, k + 1) == nth_word(s, word_end(s, skip_white_space(s, from)), k),
{
}

/// The properties that the line `s` of `zfs list -Hpo` gives, where the line reads.
pub open spec fn dataset_line_reads_as(s: Seq<char>, p: DatasetProperties) -> bool {
    let w = |k: nat| nth_word(s, 0, k)->Some_0;
    &&& p.id == (if w(0) == "-"@ { None } else { parsed_uuid(w(0)) })
    &&& p.name@ == w(1)
    &&& p.avail.spec_bytes() as nat == read_u64(w(2))->Ok_0
    &&& p.used.spec_bytes() as nat == read_u64(w(3))->Ok_0
    &&& (p.quota is None <==> read_u64(w(4))->Ok_0 == 0)
    &&& p.quota matches Some(q) ==> q.spec_bytes() as nat == read_u64(w(4))->Ok_0
    &&& (p.reservation is None <==> read_u64(w(5))->Ok_0 == 0)
    &&& p.reservation matches Some(q) ==> q.spec_bytes() as nat == read_u64(w(5))->Ok_0
    &&& p.compression@ == w(6)
}

/// Reads one line of `zfs list -Hpo oxide:uuid,name,avail,used,quota,reservation,compression`:
/// whitespace-separated fields, where the id may be `-` (none) and a quota or
/// reservation of 0 means none.
pub fn dataset_properties_parse(s: &str) -> (r: Result<DatasetProperties, DatasetPropertiesParseError>)
    ensures
        r is Err <==> dataset_line_error(s@) is Some,
        r matches Err(e) ==> e.input@ == s@ && Some(e.kind) == dataset_line_error(s@),
        r matches Ok(p) ==> dataset_line_reads_as(s@, p),
{
    let fail = |kind: DatasetPropertiesErrorKind| -> (e: DatasetPropertiesParseError)
        ensures
            e.input@ == s@ && e.kind == kind,
        { DatasetPropertiesParseError { input: string_of(s), kind } };
    proof {
        reveal_strlit("-");
    }
    let (id, e0) = match next_word(s, 0) {
        None => return Err(fail(DatasetPropertiesErrorKind::Missing(0))),
        Some((w, end)) => {
            if w.unicode_len() == 1 && w.get_char(0) == '-' {
                proof {
                    assert(w@ =~= "-"@);
                }
                (None, end)
            } else {
                proof {
                    if w@ == "-"@ {
                        assert(w@.len() == 1 && w@[0] == '-');
                    }
                }
                match parse_uuid(w) {
                    Some(u) => (Some(u), end),
                    None => return Err(fail(DatasetPropertiesErrorKind::BadUuid)),
                }
            }
        },
    };
    proof {
        lemma_next_word(s@, 0, 0);
    }
    let (name, e1) = match next_word(s, e0) {
        None => return Err(fail(DatasetPropertiesErrorKind::Missing(1))),
        Some((w, end)) => (string_of(w), end),
    };
    proof {
        lemma_next_word(s@, 0, 1);
        lemma_next_word(s@, e0 as int, 0);
    }
    let (avail, e2) = match read_number_field(s, e1, 2, false, Ghost(2)) {
        Err(kind) => return Err(fail(kind)),
        Ok((v, end)) => (v, end),
    };
    proof {
        lemma_next_word(s@, 0, 2);
        lemma_next_word(s@, e0 as int, 1);
        lemma_next_word(s@, e1 as int, 0);
    }
    let (used, e3) = match read_number_field(s, e2, 3, false, Ghost(3)) {
        Err(kind) => return Err(fail(kind)),
        Ok((v, end)) => (v, end),
    };
    proof {
        lemma_next_word(s@, 0, 3);
        lemma_next_word(s@, e0 as int, 2);
        lemma_next_word(s@, e1 as int, 1);
        lemma_next_word(s@, e2 as int, 0);
    }
    let (quota, e4) = match read_number_field(s, e3, 4, true, Ghost(4)) {
        Err(kind) => return Err(fail(kind)),
        Ok((v, end)) => (v, end),
    };
    proof {
        lemma_next_word(s@, 0, 4);
        lemma_next_word(s@, e0 as int, 3);
        lemma_next_word(s@, e1 as int, 2);
        lemma_next_word(s@, e2 as int, 1);
        lemma_next_word(s@, e3 as int, 0);
    }
    let (reservation, e5) = match read_number_field(s, e4, 5, true, Ghost(5)) {
        Err(kind) => return Err(fail(kind)),
        Ok((v, end)) => (v, end),
    };
    proof {
        lemma_next_word(s@, 0, 5);
        lemma_next_word(s@, e0 as int, 4);
        lemma_next_word(s@, e1 as int, 3);
        lemma_next_word(s@, e2 as int, 2);
        lemma_next_word(s@, e3 as int, 1);
        lemma_next_word(s@, e4 as int, 0);
    }
    let compression = match next_word(s, e5) {
        None => return Err(fail(DatasetPropertiesErrorKind::Missing(6))),
        Some((w, _)) => string_of(w),
    };
    let avail = match avail {
        Some(b) => b,
        None => return Err(fail(DatasetPropertiesErrorKind::TooLarge)),
    };
    let used = match used {
        Some(b) => b,
        None => return Err(fail(DatasetPropertiesErrorKind::TooLarge)),
    };
    Ok(DatasetProperties { id, name, avail, used, quota, reservation, compression })
}

impl DatasetProperties {
    /// Reads one line of `zfs list -Hpo` (see `dataset_properties_parse`).
    pub fn parse(s: &str) -> (r: Result<DatasetProperties, DatasetPropertiesParseError>)
        ensures
            r is Err <==> dataset_line_error(s@) is Some,
            r matches Err(e) ==> e.input@ == s@ && Some(e.kind) == dataset_line_error(s@),
            r matches Ok(p) ==> dataset_line_reads_as(s@, p),
    {
        dataset_properties_parse(s)
    }
}

pub open spec fn int_error_text(e: IntErrorKind) -> Seq<char> {
    match e {
        IntErrorKind::Empty => "cannot parse integer from empty string"@,
        IntErrorKind::InvalidDigit => "invalid digit found in string"@,
        IntErrorKind::PosOverflow => "number too large to fit in target type"@,
    }
}

/// What an error of reading a line says.
pub open spec fn dataset_error_text(k: DatasetPropertiesErrorKind) -> Seq<char> {
    match k {
        DatasetPropertiesErrorKind::Missing(i) => "Missing "@ + dataset_field_name(i as nat),
        DatasetPropertiesErrorKind::BadUuid => "error parsing UUID (dataset)"@,
        DatasetPropertiesErrorKind::BadNumber(e) => int_error_text(e),
        DatasetPropertiesErrorKind::TooLarge => "byte count too large"@,
    }
}

impl DatasetPropertiesErrorKind {
    pub fn reason(&self) -> (r: String)
        ensures
            r@ == dataset_error_text(*self),
    {
        match self {
            DatasetPropertiesErrorKind::Missing(i) => {
                let mut r = string_of("Missing ");
                let field = if *i == 0 {
                    "UUID"
                } else if *i == 1 {
                    "'name'"
                } else if *i == 2 {
                    "'avail'"
                } else if *i == 3 {
                    "'used'"
                } else if *i == 4 {
                    "'quota'"
                } else if *i == 5 {
                    "'reservation'"
                } else {
                    "'compression'"
                };
                r.append(field);
                r
            },
            DatasetPropertiesErrorKind::BadUuid => string_of("error parsing UUID (dataset)"),
            DatasetPropertiesErrorKind::BadNumber(IntErrorKind::Empty) => string_of(
                "cannot parse integer from empty string",
            ),
            DatasetPropertiesErrorKind::BadNumber(IntErrorKind::InvalidDigit) => string_of(
                "invalid digit found in string",
            ),
            DatasetPropertiesErrorKind::BadNumber(IntErrorKind::PosOverflow) => string_of(
                "number too large to fit in target type",
            ),
            DatasetPropertiesErrorKind::TooLarge => string_of("byte count too large"),
        }
    }
}

impl DatasetPropertiesParseError {
    /// The error's text: the line, then what was wrong with it.
    pub fn message(&self) -> (r: String)
        ensures
            r@ == "Failed to parse: "@ + self.input@ + ": "@ + dataset_error_text(self.kind),
    {
        let mut r = string_of("Failed to parse: ");
        r.append(self.input.as_str());
        r.append(": ");
        r.append(self.kind.reason().as_str());
        r
    }
}

impl core::str::FromStr for DatasetProperties {
    type Err = DatasetPropertiesParseError;

    fn from_str(s: &str) -> Result<DatasetProperties, DatasetPropertiesParseError> {
        DatasetProperties::parse(s)
    }
}

/// `s` holds `pat` at position `i`.
pub open spec fn holds_at(s: Seq<char>, pat: Seq<char>, i: int) -> bool {
    0 <= i && i + pat.len() <= s.len() && s.subrange(i, i + pat.len()) == pat
}

/// `s` holds `pat` somewhere.
pub open spec fn holds_text(s: Seq<char>, pat: Seq<char>) -> bool {
    exists|i: int| holds_at(s, pat, i)
}

/// Whether `s` holds `pat` somewhere, as `str::contains` answers.
pub fn contains_text(s: &str, pat: &str) -> (r: bool)
    ensures
        r == holds_text(s@, pat@),
{
    let n = s.unicode_len();
    let m = pat.unicode_len();
    if m > n {
        proof {
            assert forall|i: int| !holds_at(s@, pat@, i) by {}
        }
        return false;
    }
    let mut i: usize = 0;
    while i <= n - m
        invariant
            n == s@.len(),
            m == pat@.len(),
            m <= n,
            i <= n - m + 1,
            forall|j: int| 0 <= j < i ==> !holds_at(s@, pat@, j),
        decreases n - i,
    {
        let mut k: usize = 0;
        while k < m && s.get_char(i + k) == pat.get_char(k)
            invariant
                n == s@.len(),
                m == pat@.len(),
                i + m <= n,
                k <= m,
                forall|q: int| 0 <= q < k ==> s@[i + q] == pat@[q],
            decreases m - k,
        {
            k = k + 1;
        }
        if k == m {
            proof {
                assert(s@.subrange(i as int, i + m) =~= pat@);
                assert(holds_at(s@, pat@, i as int));
            }
            return true;
        }
        proof {
            assert(s@.subrange(i as int, i + m)[k as int] != pat@[k as int]);
        }
        i = i + 1;
    }
    proof {
        assert forall|j: int| !holds_at(s@, pat@, j) by {
            if 0 <= j && j + m <= n {
                assert(j < i);
            }
        }
    }
    false
}

/// Why destroying a dataset failed.
#[derive(Debug)]
pub enum DestroyDatasetErrorVariant {
    NotFound,
    Other(ExecutionError),
}

/// Error of destroying a dataset.
#[derive(Debug)]
pub struct DestroyDatasetError {
    pub name: String,
    pub err: DestroyDatasetErrorVariant,
}

impl Zfs {
    /// The arguments of the privileged command (`pfexec`) that destroys the dataset
    /// `name` and its descendants.
    pub fn destroy_dataset(name: &str) -> (r: Vec<String>)
        ensures
            r@.len() == 4,
            r@[0]@ == "/usr/sbin/zfs"@,
            r@[1]@ == "destroy"@,
            r@[2]@ == "-r"@,
            r@[3]@ == name@,
    {
        let mut r: Vec<String> = Vec::new();
        r.push(string_of("/usr/sbin/zfs"));
        r.push(string_of("destroy"));
        r.push(string_of("-r"));
        r.push(string_of(name));
        r
    }

    /// The error of a failed destroy of `name`: not found where the command's error
    /// output says that the dataset does not exist.
    pub fn destroy_dataset_error(name: &str, err: ExecutionError, stderr: &str) -> (r: DestroyDatasetError)
        ensures
            r.name@ == name@,
            r.err is NotFound <==> holds_text(stderr@, "does not exist"@),
            r.err matches DestroyDatasetErrorVariant::Other(e) ==> e == err,
    {
        let variant = if contains_text(stderr, "does not exist") {
            DestroyDatasetErrorVariant::NotFound
        } else {
            DestroyDatasetErrorVariant::Other(err)
        };
        DestroyDatasetError { name: string_of(name), err: variant }
    }
}

/// A dataset of an internal pool that is kept when Omicron's datasets are erased:
/// crash dumps, backing data and swap.
pub open spec fn kept_on_internal_pool(d: Seq<char>) -> bool {
    d == "crash"@ || d == "backing"@ || d == "swap"@ || (d.len() >= 8 && d.subrange(0, 8) == "backing/"@)
}

fn is_kept_on_internal_pool(d: &str) -> (r: bool)
    ensures
        r == kept_on_internal_pool(d@),
{
    proof {
        reveal_strlit("crash");
        reveal_strlit("backing");
        reveal_strlit("swap");
        reveal_strlit("backing/");
    }
    let n = d.unicode_len();
    let starts_backing_dir = n >= 8 && {
        let prefix = d.substring_char(0, 8);
        prefix.unicode_len() == 8 && equal_text(prefix, "backing/")
    };
    equal_text(d, "crash") || equal_text(d, "backing") || equal_text(d, "swap") || starts_backing_dir
}

/// Whether the two texts are equal.
pub fn equal_text(a: &str, b: &str) -> (r: bool)
    ensures
        r == (a@ == b@),
{
    let n = a.unicode_len();
    if n != b.unicode_len() {
        return false;
    }
    let mut i: usize = 0;
    while i < n
        invariant
            n == a@.len(),
            n == b@.len(),
            i <= n,
            forall|j: int| 0 <= j < i ==> a@[j] == b@[j],
        decreases n - i,
    {
        if a.get_char(i) != b.get_char(i) {
            return false;
        }
        i = i + 1;
    }
    proof {
        assert(a@ =~= b@);
    }
    true
}

/// The full name of dataset `d` of pool `pool`.
pub open spec fn dataset_path(pool: Seq<char>, d: Seq<char>) -> Seq<char> {
    pool + "/"@ + d
}

/// A dataset that is erased with Omicron's datasets: on an internal pool, all but those
/// that are kept; elsewhere, all.
pub open spec fn erased_on(internal: bool) -> spec_fn(Seq<char>) -> bool {
    |d: Seq<char>| !(internal && kept_on_internal_pool(d))
}

/// The full names of the datasets of one pool that are erased when Omicron's datasets
/// are, in the order of `datasets`.
pub open spec fn pool_datasets_for_delete(pool: Seq<char>, internal: bool, datasets: Seq<Seq<char>>) -> Seq<Seq<char>> {
    datasets.filter(erased_on(internal)).map_values(|d: Seq<char>| dataset_path(pool, d))
}

/// The full names of the datasets of pool `pool` (internal or not) that are erased when
/// Omicron's datasets are, in the order of `datasets`.
pub fn omicron_datasets_for_delete(pool: &str, internal: bool, datasets: &Vec<String>) -> (r: Vec<String>)
    ensures
        r@.map_values(|s: String| s@) == pool_datasets_for_delete(
            pool@,
            internal,
            datasets@.map_values(|s: String| s@),
        ),
{
    let ghost names = datasets@.map_values(|s: String| s@);
    let mut r: Vec<String> = Vec::new();
    proof {
        broadcast use vstd::seq_lib::group_filter_ensures;

        assert(names.take(0).filter(erased_on(internal)).len() == 0);
    }
    let mut i: usize = 0;
    while i < datasets.len()
        invariant
            i <= datasets@.len(),
            names == datasets@.map_values(|s: String| s@),
            r@.map_values(|s: String| s@) =~= pool_datasets_for_delete(pool@, internal, names.take(i as int)),
        decreases datasets@.len() - i,
    {
        let d = datasets[i].as_str();
        proof {
            assert(names.take(i + 1) =~= names.take(i as int).push(d@));
            names.take(i as int).lemma_filter_push(d@, erased_on(internal));
        }
        if !(internal && is_kept_on_internal_pool(d)) {
            let mut full = string_of(pool);
            full.append("/");
            full.append(d);
            let ghost prev = r@;
            r.push(full);
            proof {
                assert(r@.map_values(|s: String| s@) =~= prev.map_values(|s: String| s@).push(full@));
                let f = |d: Seq<char>| dataset_path(pool@, d);
                let fl = names.take(i as int).filter(erased_on(internal));
                assert(fl.push(d@).map_values(f) =~= fl.map_values(f).push(f(d@)));
            }
        }
        i = i + 1;
    }
    proof {
        assert(names.take(i as int) =~= names);
    }
    r
}

} // verus!
