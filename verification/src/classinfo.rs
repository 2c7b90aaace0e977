//! The digest of what the platform provides: its text format and its reader.
//!
//! A digest is UTF-8 text, a run of records. A record is a line
//! `name:super:interfaces:count`, in which `super` may be empty and
//! `interfaces` is a list with commas between its names, and after it `count`
//! lines, one for each method: `--`, the method's signature, and `:PS` where
//! the method has a polymorphic signature. Every line ends with a line feed.
//!
//! The format is stated as functions of the bytes of the text; the reader is
//! proved to compute them.

use crate::java_class::view_each;
use crate::names::string_from_utf8;
use crate::text::{decimal_digits, decimal_text};
use vstd::prelude::*;
use vstd::slice::*;
use vstd::string::*;
use vstd::utf8::*;

verus! {

pub const COLON: u8 = 58;

pub const COMMA: u8 = 44;

pub const DASH: u8 = 45;

pub const LINE_FEED: u8 = 10;

/// What the reader looked for where it stopped.
#[derive(Copy, Clone, Debug, PartialEq, Eq, Structural)]
pub enum Expected {
    /// The colon that ends a name, a super class or a list of interfaces.
    Colon,
    /// The count of methods: digits, whose number fits a `usize`.
    MethodCount,
    /// The line feed that ends a line.
    LineFeed,
    /// The two dashes that a method's line begins with.
    MethodPrefix,
    /// A name or a signature in UTF-8.
    Utf8,
}

/// Why a digest was refused: what was looked for, and the offset of the
/// byte at which it was not found.
#[derive(Copy, Clone, Debug, PartialEq, Eq, Structural)]
pub struct DigestError {
    pub offset: usize,
    pub expected: Expected,
}

impl Expected {
    /// What was looked for, in words.
    pub open spec fn spec_words(&self) -> Seq<char> {
        match self {
            Expected::Colon => "a colon"@,
            Expected::MethodCount => "a count of methods"@,
            Expected::LineFeed => "a line feed"@,
            Expected::MethodPrefix => "the two dashes of a method's line"@,
            Expected::Utf8 => "text in UTF-8"@,
        }
    }

    /// What was looked for, in words.
    pub fn words(&self) -> (r: &'static str)
        ensures
            r@ == self.spec_words(),
    {
        match self {
            Expected::Colon => "a colon",
            Expected::MethodCount => "a count of methods",
            Expected::LineFeed => "a line feed",
            Expected::MethodPrefix => "the two dashes of a method's line",
            Expected::Utf8 => "text in UTF-8",
        }
    }
}

impl DigestError {
    /// What `message` gives.
    pub open spec fn spec_message(&self) -> Seq<char> {
        "expected "@ + self.expected.spec_words() + " at offset "@ + decimal_digits(
            self.offset as nat,
        )
    }

    /// The error in words: what was looked for, and the offset.
    pub fn message(&self) -> (r: String)
        ensures
            r@ == self.spec_message(),
    {
        let mut r = String::from_str("expected ");
        r.append(self.expected.words());
        r.append(" at offset ");
        r.append(decimal_text(self.offset).as_str());
        r
    }
}

/// A method that a platform class declares.
#[derive(Debug)]
pub struct PlatformMethod {
    /// The method's name and, after it, its descriptor.
    pub signature: String,
    /// Whether the method's signature is polymorphic.
    pub polymorphic_signature: bool,
}

/// What a platform method holds.
pub struct MethodView {
    pub signature: Seq<char>,
    pub polymorphic_signature: bool,
}

impl View for PlatformMethod {
    type V = MethodView;

    open spec fn view(&self) -> MethodView {
        MethodView {
            signature: self.signature@,
            polymorphic_signature: self.polymorphic_signature,
        }
    }
}

/// A class of the platform, as a record of the digest tells it.
#[derive(Debug)]
pub struct ClassInfo {
    pub name: String,
    pub super_class: Option<String>,
    pub interfaces: Vec<String>,
    pub methods: Vec<PlatformMethod>,
}

/// What a record of the digest holds.
pub struct ClassInfoView {
    pub name: Seq<char>,
    pub super_class: Option<Seq<char>>,
    pub interfaces: Seq<Seq<char>>,
    pub methods: Seq<MethodView>,
}

impl View for ClassInfo {
    type V = ClassInfoView;

    open spec fn view(&self) -> ClassInfoView {
        ClassInfoView {
            name: self.name@,
            super_class: match self.super_class {
                Some(s) => Some(s@),
                None => None,
            },
            interfaces: view_each(self.interfaces@),
            methods: view_each(self.methods@),
        }
    }
}

/// The error for what was looked for at `offset`.
pub open spec fn missing(offset: int, expected: Expected) -> DigestError {
    DigestError { offset: offset as usize, expected }
}

/// The first position from `p` on and before `end` that holds the byte `d`;
/// `end` if there is none.
pub open spec fn find(b: Seq<u8>, p: int, end: int, d: u8) -> int
    decreases end - p,
{
    if p >= end {
        end
    } else if b[p] == d {
        p
    } else {
        find(b, p + 1, end, d)
    }
}

/// Whether the byte is a decimal digit.
pub open spec fn is_digit(c: u8) -> bool {
    48 <= c <= 57
}

/// The first position from `p` on that holds no digit.
pub open spec fn skip_digits(b: Seq<u8>, p: int) -> int
    decreases b.len() - p,
{
    if p < 0 || p >= b.len() || !is_digit(b[p]) {
        p
    } else {
        skip_digits(b, p + 1)
    }
}

/// The number that the digits from `from` to before `to` write.
pub open spec fn decimal(b: Seq<u8>, from: int, to: int) -> nat
    decreases to - from,
{
    if to <= from {
        0
    } else {
        (decimal(b, from, to - 1) * 10 + (b[to - 1] - 48)) as nat
    }
}

/// The text from `from` to before `to`.
pub open spec fn spec_text(b: Seq<u8>, from: int, to: int) -> Result<Seq<char>, DigestError> {
    if valid_utf8(b.subrange(from, to)) {
        Ok(decode_utf8(b.subrange(from, to)))
    } else {
        Err(missing(from, Expected::Utf8))
    }
}

/// `acc`, then the names of the list from `from` to before `to`, which has
/// commas between its names. An empty name is left out.
pub open spec fn spec_names(b: Seq<u8>, from: int, to: int, acc: Seq<Seq<char>>) -> Result<
    Seq<Seq<char>>,
    DigestError,
>
    decreases to + 1 - from,
    via spec_names_decreases
{
    if from >= to {
        Ok(acc)
    } else {
        let comma = find(b, from, to, COMMA);
        if comma == from {
            spec_names(b, from + 1, to, acc)
        } else {
            match spec_text(b, from, comma) {
                Err(e) => Err(e),
                Ok(name) => spec_names(b, comma + 1, to, acc.push(name)),
            }
        }
    }
}

#[via_fn]
proof fn spec_names_decreases(b: Seq<u8>, from: int, to: int, acc: Seq<Seq<char>>) {
    if from < to {
        lemma_find(b, from, to, COMMA);
    }
}

/// Whether the bytes from `from` to before `to` end with `:PS`.
pub open spec fn marked_polymorphic(b: Seq<u8>, from: int, to: int) -> bool {
    to - from >= 3 && b[to - 3] == COLON && b[to - 2] == 80 && b[to - 1] == 83
}

/// The method whose line begins at `p`, and the position after the line.
pub open spec fn spec_method(b: Seq<u8>, p: int) -> Result<(MethodView, int), DigestError> {
    if !(p + 2 <= b.len() && b[p] == DASH && b[p + 1] == DASH) {
        Err(missing(p, Expected::MethodPrefix))
    } else {
        let end = find(b, p + 2, b.len() as int, LINE_FEED);
        if end >= b.len() {
            Err(missing(b.len() as int, Expected::LineFeed))
        } else {
            let polymorphic_signature = marked_polymorphic(b, p + 2, end);
            let to = if polymorphic_signature {
                end - 3
            } else {
                end
            };
            match spec_text(b, p + 2, to) {
                Err(e) => Err(e),
                Ok(signature) => Ok((MethodView { signature, polymorphic_signature }, end + 1)),
            }
        }
    }
}

/// `acc`, then the `n` methods whose lines begin at `p`; and the position
/// after them.
pub open spec fn spec_methods(b: Seq<u8>, p: int, n: nat, acc: Seq<MethodView>) -> Result<
    (Seq<MethodView>, int),
    DigestError,
>
    decreases n,
{
    if n == 0 {
        Ok((acc, p))
    } else {
        match spec_method(b, p) {
            Err(e) => Err(e),
            Ok((method, q)) => spec_methods(b, q, (n - 1) as nat, acc.push(method)),
        }
    }
}

/// What follows the third colon of a record's first line, which stands
/// before `p`: the count of methods, a line feed, and the methods.
pub open spec fn spec_counted_methods(b: Seq<u8>, p: int) -> Result<
    (Seq<MethodView>, int),
    DigestError,
> {
    let end = skip_digits(b, p);
    if end == p || decimal(b, p, end) > usize::MAX {
        Err(missing(p, Expected::MethodCount))
    } else if end >= b.len() || b[end] != LINE_FEED {
        Err(missing(end, Expected::LineFeed))
    } else {
        spec_methods(b, end + 1, decimal(b, p, end), Seq::empty())
    }
}

/// The record that begins at `p`, and the position after it.
pub open spec fn spec_record(b: Seq<u8>, p: int) -> Result<(ClassInfoView, int), DigestError> {
    let n = b.len() as int;
    let c1 = find(b, p, n, COLON);
    let c2 = find(b, c1 + 1, n, COLON);
    let c3 = find(b, c2 + 1, n, COLON);
    if c1 >= n {
        Err(missing(n, Expected::Colon))
    } else if spec_text(b, p, c1) is Err {
        Err(missing(p, Expected::Utf8))
    } else if c2 >= n {
        Err(missing(n, Expected::Colon))
    } else if spec_text(b, c1 + 1, c2) is Err {
        Err(missing(c1 + 1, Expected::Utf8))
    } else if c3 >= n {
        Err(missing(n, Expected::Colon))
    } else {
        match spec_names(b, c2 + 1, c3, Seq::empty()) {
            Err(e) => Err(e),
            Ok(interfaces) => match spec_counted_methods(b, c3 + 1) {
                Err(e) => Err(e),
                Ok((methods, q)) => {
                    let super_name = spec_text(b, c1 + 1, c2)->Ok_0;
                    Ok(
                        (
                            ClassInfoView {
                                name: spec_text(b, p, c1)->Ok_0,
                                super_class: if super_name.len() == 0 {
                                    None
                                } else {
                                    Some(super_name)
                                },
                                interfaces,
                                methods,
                            },
                            q,
                        ),
                    )
                },
            },
        }
    }
}

/// `acc`, then the records from `p` to the end of the text, of which there
/// is at least one.
pub open spec fn spec_records(b: Seq<u8>, p: int, acc: Seq<ClassInfoView>) -> Result<
    Seq<ClassInfoView>,
    DigestError,
>
    decreases b.len() - p,
    when p >= 0
    via spec_records_decreases
{
    match spec_record(b, p) {
        Err(e) => Err(e),
        Ok((record, q)) => if q >= b.len() {
            Ok(acc.push(record))
        } else {
            spec_records(b, q, acc.push(record))
        },
    }
}

#[via_fn]
proof fn spec_records_decreases(b: Seq<u8>, p: int, acc: Seq<ClassInfoView>) {
    lemma_record_advances(b, p);
}

/// The records that a digest holds, or why it is refused.
pub open spec fn spec_digest(b: Seq<u8>) -> Result<Seq<ClassInfoView>, DigestError> {
    spec_records(b, 0, Seq::empty())
}

proof fn lemma_find(b: Seq<u8>, p: int, end: int, d: u8)
    requires
        p <= end,
    ensures
        p <= find(b, p, end, d) <= end,
        find(b, p, end, d) < end ==> b[find(b, p, end, d)] == d,
        forall|k: int| p <= k < find(b, p, end, d) ==> b[k] != d,
    decreases end - p,
{
    if p < end && b[p] != d {
        lemma_find(b, p + 1, end, d);
    }
}

proof fn lemma_skip_digits(b: Seq<u8>, p: int)
    requires
        0 <= p <= b.len(),
    ensures
        p <= skip_digits(b, p) <= b.len(),
    decreases b.len() - p,
{
    if p < b.len() && is_digit(b[p]) {
        lemma_skip_digits(b, p + 1);
    }
}

proof fn lemma_methods_advance(b: Seq<u8>, p: int, n: nat, acc: Seq<MethodView>)
    requires
        0 <= p <= b.len(),
    ensures
        spec_methods(b, p, n, acc) matches Ok((_, q)) ==> p <= q <= b.len(),
    decreases n,
{
    if n > 0 {
        if let Ok((method, q)) = spec_method(b, p) {
            lemma_find(b, p + 2, b.len() as int, LINE_FEED);
            lemma_methods_advance(b, q, (n - 1) as nat, acc.push(method));
        }
    }
}

proof fn lemma_record_advances(b: Seq<u8>, p: int)
    requires
        p >= 0,
    ensures
        spec_record(b, p) matches Ok((_, q)) ==> p < q <= b.len(),
{
    let n = b.len() as int;
    if p <= n {
        lemma_find(b, p, n, COLON);
        let c1 = find(b, p, n, COLON);
        if c1 < n {
            lemma_find(b, c1 + 1, n, COLON);
            let c2 = find(b, c1 + 1, n, COLON);
            if c2 < n {
                lemma_find(b, c2 + 1, n, COLON);
                let c3 = find(b, c2 + 1, n, COLON);
                if c3 < n {
                    lemma_skip_digits(b, c3 + 1);
                    let end = skip_digits(b, c3 + 1);
                    if end < n {
                        lemma_methods_advance(b, end + 1, decimal(b, c3 + 1, end), Seq::empty());
                    }
                }
            }
        }
    }
}

proof fn lemma_decimal_grows(b: Seq<u8>, from: int, mid: int, to: int)
    requires
        from <= mid <= to,
        forall|k: int| from <= k < to ==> is_digit(#[trigger] b[k]),
    ensures
        decimal(b, from, mid) <= decimal(b, from, to),
    decreases to - mid,
{
    if mid < to {
        lemma_decimal_grows(b, from, mid, to - 1);
    }
}

/// Finds the first position from `p` on and before `end` that holds `d`.
fn scan(data: &[u8], p: usize, end: usize, d: u8) -> (r: usize)
    requires
        p <= end <= data@.len(),
    ensures
        r == find(data@, p as int, end as int, d),
        p <= r <= end,
{
    let mut i: usize = p;
    while i < end && data[i] != d
        invariant
            p <= i <= end,
            end <= data@.len(),
            find(data@, p as int, end as int, d) == find(data@, i as int, end as int, d),
        decreases end - i,
    {
        i += 1;
    }
    i
}

/// Reads the text from `from` to before `to`.
fn read_text(data: &[u8], from: usize, to: usize) -> (r: Result<String, DigestError>)
    requires
        from <= to <= data@.len(),
    ensures
        match r {
            Ok(s) => spec_text(data@, from as int, to as int) == Ok::<Seq<char>, DigestError>(s@),
            Err(e) => spec_text(data@, from as int, to as int) == Err::<Seq<char>, DigestError>(e),
        },
{
    match string_from_utf8(slice_to_vec(slice_subrange(data, from, to))) {
        Some(s) => Ok(s),
        None => Err(DigestError { offset: from, expected: Expected::Utf8 }),
    }
}

/// Reads the names of the list from `from` to before `to`.
fn read_names(data: &[u8], from: usize, to: usize) -> (r: Result<Vec<String>, DigestError>)
    requires
        from <= to <= data@.len(),
    ensures
        match r {
            Ok(v) => spec_names(data@, from as int, to as int, Seq::empty()) == Ok::<
                Seq<Seq<char>>,
                DigestError,
            >(view_each(v@)),
            Err(e) => spec_names(data@, from as int, to as int, Seq::empty()) == Err::<
                Seq<Seq<char>>,
                DigestError,
            >(e),
        },
{
    let mut result: Vec<String> = Vec::new();
    assert(view_each(result@) =~= Seq::<Seq<char>>::empty());
    let mut at: usize = from;
    while at < to
        invariant
            from <= at <= to,
            to <= data@.len(),
            spec_names(data@, from as int, to as int, Seq::empty()) == spec_names(
                data@,
                at as int,
                to as int,
                view_each(result@),
            ),
        decreases to - at,
    {
        let ghost before = view_each(result@);
        let comma = scan(data, at, to, COMMA);
        if comma > at {
            match read_text(data, at, comma) {
                Err(e) => {
                    return Err(e);
                },
                Ok(name) => {
                    result.push(name);
                    assert(view_each(result@) =~= before.push(name@));
                },
            }
        }
        if comma < to {
            at = comma + 1;
        } else {
            assert(spec_names(data@, comma as int + 1, to as int, view_each(result@)) == Ok::<
                Seq<Seq<char>>,
                DigestError,
            >(view_each(result@)));
            assert(spec_names(data@, to as int, to as int, view_each(result@)) == Ok::<
                Seq<Seq<char>>,
                DigestError,
            >(view_each(result@)));
            at = to;
        }
    }
    Ok(result)
}

/// Reads the method whose line begins at `p`.
fn read_method(data: &[u8], p: usize) -> (r: Result<(PlatformMethod, usize), DigestError>)
    requires
        p <= data@.len(),
    ensures
        match r {
            Ok((m, q)) => p < q <= data@.len() && spec_method(data@, p as int) == Ok::<
                (MethodView, int),
                DigestError,
            >((m@, q as int)),
            Err(e) => spec_method(data@, p as int) == Err::<(MethodView, int), DigestError>(e),
        },
{
    let n = data.len();
    if n - p < 2 || data[p] != DASH || data[p + 1] != DASH {
        return Err(DigestError { offset: p, expected: Expected::MethodPrefix });
    }
    let end = scan(data, p + 2, n, LINE_FEED);
    if end >= n {
        return Err(DigestError { offset: n, expected: Expected::LineFeed });
    }
    let polymorphic_signature = end - (p + 2) >= 3 && data[end - 3] == COLON && data[end - 2] == 80
        && data[end - 1] == 83;
    let to = if polymorphic_signature {
        end - 3
    } else {
        end
    };
    match read_text(data, p + 2, to) {
        Err(e) => Err(e),
        Ok(signature) => Ok((PlatformMethod { signature, polymorphic_signature }, end + 1)),
    }
}

/// Reads the count of methods that begins at `p`, the line feed after it
/// and the methods.
fn read_counted_methods(data: &[u8], p: usize) -> (r: Result<
    (Vec<PlatformMethod>, usize),
    DigestError,
>)
    requires
        p <= data@.len(),
    ensures
        match r {
            Ok((v, q)) => p < q <= data@.len() && spec_counted_methods(data@, p as int) == Ok::<
                (Seq<MethodView>, int),
                DigestError,
            >((view_each(v@), q as int)),
            Err(e) => spec_counted_methods(data@, p as int) == Err::<
                (Seq<MethodView>, int),
                DigestError,
            >(e),
        },
{
    let n = data.len();
    let mut end: usize = p;
    let mut count: usize = 0;
    while end < n && 48 <= data[end] && data[end] <= 57
        invariant
            p <= end <= n,
            n == data@.len(),
            skip_digits(data@, p as int) == skip_digits(data@, end as int),
            forall|k: int| p <= k < end ==> is_digit(#[trigger] data@[k]),
            count == decimal(data@, p as int, end as int),
        decreases n - end,
    {
        let digit = (data[end] - 48) as usize;
        if count > (usize::MAX - digit) / 10 {
            proof {
                let stop = skip_digits(data@, p as int);
                lemma_skip_digits(data@, end as int + 1);
                assert(forall|k: int| p <= k < stop ==> is_digit(#[trigger] data@[k])) by {
                    lemma_digits_before_stop(data@, p as int);
                }
                lemma_decimal_grows(data@, p as int, end as int + 1, stop);
            }
            return Err(DigestError { offset: p, expected: Expected::MethodCount });
        }
        count = count * 10 + digit;
        end += 1;
    }
    if end == p {
        return Err(DigestError { offset: p, expected: Expected::MethodCount });
    }
    if end >= n || data[end] != LINE_FEED {
        return Err(DigestError { offset: end, expected: Expected::LineFeed });
    }
    let mut result: Vec<PlatformMethod> = Vec::new();
    assert(view_each(result@) =~= Seq::<MethodView>::empty());
    let mut at: usize = end + 1;
    let mut left: usize = count;
    while left > 0
        invariant
            p < end < at <= data@.len(),
            end == skip_digits(data@, p as int),
            count == decimal(data@, p as int, end as int),
            data@[end as int] == LINE_FEED,
            spec_methods(data@, end as int + 1, count as nat, Seq::empty()) == spec_methods(
                data@,
                at as int,
                left as nat,
                view_each(result@),
            ),
        decreases left,
    {
        let ghost before = view_each(result@);
        match read_method(data, at) {
            Err(e) => {
                return Err(e);
            },
            Ok((method, next)) => {
                let ghost view = method@;
                result.push(method);
                assert(view_each(result@) =~= before.push(view));
                at = next;
                left -= 1;
            },
        }
    }
    Ok((result, at))
}

proof fn lemma_digits_before_stop(b: Seq<u8>, p: int)
    requires
        0 <= p <= b.len(),
    ensures
        forall|k: int| p <= k < skip_digits(b, p) ==> is_digit(#[trigger] b[k]),
    decreases b.len() - p,
{
    if p < b.len() && is_digit(b[p]) {
        lemma_digits_before_stop(b, p + 1);
    }
}

impl ClassInfo {
    /// Reads the record that begins at `p`.
    pub fn parse(data: &[u8], p: usize) -> (r: Result<(ClassInfo, usize), DigestError>)
        ensures
            match r {
                Ok((record, q)) => p < q <= data@.len() && spec_record(data@, p as int) == Ok::<
                    (ClassInfoView, int),
                    DigestError,
                >((record@, q as int)),
                Err(e) => spec_record(data@, p as int) == Err::<(ClassInfoView, int), DigestError>(
                    e,
                ),
            },
    {
        let n = data.len();
        if p > n {
            return Err(DigestError { offset: n, expected: Expected::Colon });
        }
        let c1 = scan(data, p, n, COLON);
        if c1 >= n {
            return Err(DigestError { offset: n, expected: Expected::Colon });
        }
        let name = match read_text(data, p, c1) {
            Ok(s) => s,
            Err(e) => {
                return Err(e);
            },
        };
        let c2 = scan(data, c1 + 1, n, COLON);
        if c2 >= n {
            return Err(DigestError { offset: n, expected: Expected::Colon });
        }
        let super_name = match read_text(data, c1 + 1, c2) {
            Ok(s) => s,
            Err(e) => {
                return Err(e);
            },
        };
        let c3 = scan(data, c2 + 1, n, COLON);
        if c3 >= n {
            return Err(DigestError { offset: n, expected: Expected::Colon });
        }
        let interfaces = match read_names(data, c2 + 1, c3) {
            Ok(v) => v,
            Err(e) => {
                return Err(e);
            },
        };
        let (methods, q) = match read_counted_methods(data, c3 + 1) {
            Ok(x) => x,
            Err(e) => {
                return Err(e);
            },
        };
        let super_class = if super_name.as_str().is_empty() {
            None
        } else {
            Some(super_name)
        };
        Ok((ClassInfo { name, super_class, interfaces, methods }, q))
    }

    /// Reads a digest from its bytes.
    pub fn from_bytes(data: &[u8]) -> (r: Result<Vec<ClassInfo>, DigestError>)
        ensures
            match r {
                Ok(v) => spec_digest(data@) == Ok::<Seq<ClassInfoView>, DigestError>(view_each(v@)),
                Err(e) => spec_digest(data@) == Err::<Seq<ClassInfoView>, DigestError>(e),
            },
    {
        let mut result: Vec<ClassInfo> = Vec::new();
        assert(view_each(result@) =~= Seq::<ClassInfoView>::empty());
        let mut at: usize = 0;
        loop
            invariant
                at <= data@.len(),
                spec_digest(data@) == spec_records(data@, at as int, view_each(result@)),
            decreases data@.len() - at,
        {
            let ghost before = view_each(result@);
            match ClassInfo::parse(data, at) {
                Err(e) => {
                    return Err(e);
                },
                Ok((record, next)) => {
                    let ghost view = record@;
                    result.push(record);
                    assert(view_each(result@) =~= before.push(view));
                    if next >= data.len() {
                        return Ok(result);
                    }
                    at = next;
                },
            }
        }
    }

    /// Reads a digest from its text.
    pub fn from_string(data: &str) -> (r: Result<Vec<ClassInfo>, DigestError>)
        ensures
            match r {
                Ok(v) => spec_digest(encode_utf8(data@)) == Ok::<Seq<ClassInfoView>, DigestError>(
                    view_each(v@),
                ),
                Err(e) => spec_digest(encode_utf8(data@)) == Err::<Seq<ClassInfoView>, DigestError>(
                    e,
                ),
            },
    {
        ClassInfo::from_bytes(data.as_bytes())
    }
}

} // verus!
