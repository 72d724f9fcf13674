//! The grammar of a manifest, stated over its bytes.
//!
//! A manifest is a sequence of entries separated by whitespace: `name=value`
//! assignments, `name=(item item ...)` lists, `name() { body }` functions and
//! `#` comment lines. Scanning stops quietly at the first byte that can start
//! none of these.
use vstd::prelude::*;
use vstd::utf8::{decode_utf8, valid_utf8};
use crate::error::Failure;
use crate::reader::{lemma_span, span, BytePred};

verus! {

/// The fields that a manifest may define.
#[derive(Clone, Copy, Debug, PartialEq, Eq, Structural)]
pub enum Field {
    Pkgname,
    Pkgver,
    Pkgrel,
    Epoch,
    Pkgdesc,
    Url,
    License,
    Source,
    Makedepends,
    Package,
    Build,
    Prepare,
}

/// How a field is written: a single value, a list, or a function body.
#[derive(Clone, Copy, Debug, PartialEq, Eq, Structural)]
pub enum Kind {
    Str,
    List,
    Script,
}

impl Field {
    /// The bytes of the field's name as it appears in a manifest.
    pub open spec fn name_bytes(self) -> Seq<u8> {
        match self {
            Field::Pkgname => seq![0x70u8, 0x6bu8, 0x67u8, 0x6eu8, 0x61u8, 0x6du8, 0x65u8],
            Field::Pkgver => seq![0x70u8, 0x6bu8, 0x67u8, 0x76u8, 0x65u8, 0x72u8],
            Field::Pkgrel => seq![0x70u8, 0x6bu8, 0x67u8, 0x72u8, 0x65u8, 0x6cu8],
            Field::Epoch => seq![0x65u8, 0x70u8, 0x6fu8, 0x63u8, 0x68u8],
            Field::Pkgdesc => seq![0x70u8, 0x6bu8, 0x67u8, 0x64u8, 0x65u8, 0x73u8, 0x63u8],
            Field::Url => seq![0x75u8, 0x72u8, 0x6cu8],
            Field::License => seq![0x6cu8, 0x69u8, 0x63u8, 0x65u8, 0x6eu8, 0x73u8, 0x65u8],
            Field::Source => seq![0x73u8, 0x6fu8, 0x75u8, 0x72u8, 0x63u8, 0x65u8],
            Field::Makedepends => seq![0x6du8, 0x61u8, 0x6bu8, 0x65u8, 0x64u8, 0x65u8, 0x70u8, 0x65u8, 0x6eu8, 0x64u8, 0x73u8],
            Field::Package => seq![0x70u8, 0x61u8, 0x63u8, 0x6bu8, 0x61u8, 0x67u8, 0x65u8],
            Field::Build => seq![0x62u8, 0x75u8, 0x69u8, 0x6cu8, 0x64u8],
            Field::Prepare => seq![0x70u8, 0x72u8, 0x65u8, 0x70u8, 0x61u8, 0x72u8, 0x65u8],
        }
    }

    /// The field's name as text.
    pub open spec fn text(self) -> Seq<char> {
        match self {
            Field::Pkgname => "pkgname"@,
            Field::Pkgver => "pkgver"@,
            Field::Pkgrel => "pkgrel"@,
            Field::Epoch => "epoch"@,
            Field::Pkgdesc => "pkgdesc"@,
            Field::Url => "url"@,
            Field::License => "license"@,
            Field::Source => "source"@,
            Field::Makedepends => "makedepends"@,
            Field::Package => "package"@,
            Field::Build => "build"@,
            Field::Prepare => "prepare"@,
        }
    }

    pub open spec fn kind(self) -> Kind {
        match self {
            Field::Pkgname => Kind::Str,
            Field::Pkgver => Kind::Str,
            Field::Pkgrel => Kind::Str,
            Field::Epoch => Kind::Str,
            Field::Pkgdesc => Kind::Str,
            Field::Url => Kind::Str,
            Field::License => Kind::List,
            Field::Source => Kind::List,
            Field::Makedepends => Kind::List,
            Field::Package => Kind::Script,
            Field::Build => Kind::Script,
            Field::Prepare => Kind::Script,
        }
    }

    /// The field's name as text.
    pub fn as_str(&self) -> (r: &'static str)
        ensures
            r@ == self.text(),
    {
        match self {
            Field::Pkgname => "pkgname",
            Field::Pkgver => "pkgver",
            Field::Pkgrel => "pkgrel",
            Field::Epoch => "epoch",
            Field::Pkgdesc => "pkgdesc",
            Field::Url => "url",
            Field::License => "license",
            Field::Source => "source",
            Field::Makedepends => "makedepends",
            Field::Package => "package",
            Field::Build => "build",
            Field::Prepare => "prepare",
        }
    }

    /// The field's kind.
    pub fn kind_of(&self) -> (r: Kind)
        ensures
            r == self.kind(),
    {
        match self {
            Field::Pkgname => Kind::Str,
            Field::Pkgver => Kind::Str,
            Field::Pkgrel => Kind::Str,
            Field::Epoch => Kind::Str,
            Field::Pkgdesc => Kind::Str,
            Field::Url => Kind::Str,
            Field::License => Kind::List,
            Field::Source => Kind::List,
            Field::Makedepends => Kind::List,
            Field::Package => Kind::Script,
            Field::Build => Kind::Script,
            Field::Prepare => Kind::Script,
        }
    }

    /// The bytes of the field's name.
    pub fn name(&self) -> (r: Vec<u8>)
        ensures
            r@ == self.name_bytes(),
    {
        match self {
            Field::Pkgname => vec![0x70u8, 0x6bu8, 0x67u8, 0x6eu8, 0x61u8, 0x6du8, 0x65u8],
            Field::Pkgver => vec![0x70u8, 0x6bu8, 0x67u8, 0x76u8, 0x65u8, 0x72u8],
            Field::Pkgrel => vec![0x70u8, 0x6bu8, 0x67u8, 0x72u8, 0x65u8, 0x6cu8],
            Field::Epoch => vec![0x65u8, 0x70u8, 0x6fu8, 0x63u8, 0x68u8],
            Field::Pkgdesc => vec![0x70u8, 0x6bu8, 0x67u8, 0x64u8, 0x65u8, 0x73u8, 0x63u8],
            Field::Url => vec![0x75u8, 0x72u8, 0x6cu8],
            Field::License => vec![0x6cu8, 0x69u8, 0x63u8, 0x65u8, 0x6eu8, 0x73u8, 0x65u8],
            Field::Source => vec![0x73u8, 0x6fu8, 0x75u8, 0x72u8, 0x63u8, 0x65u8],
            Field::Makedepends => vec![0x6du8, 0x61u8, 0x6bu8, 0x65u8, 0x64u8, 0x65u8, 0x70u8, 0x65u8, 0x6eu8, 0x64u8, 0x73u8],
            Field::Package => vec![0x70u8, 0x61u8, 0x63u8, 0x6bu8, 0x61u8, 0x67u8, 0x65u8],
            Field::Build => vec![0x62u8, 0x75u8, 0x69u8, 0x6cu8, 0x64u8],
            Field::Prepare => vec![0x70u8, 0x72u8, 0x65u8, 0x70u8, 0x61u8, 0x72u8, 0x65u8],
        }
    }
}

/// The field that `key` names, if any.
pub open spec fn field_of(key: Seq<u8>) -> Option<Field> {

    if key == Field::Pkgname.name_bytes() {
        Some(Field::Pkgname)
    }
    else if key == Field::Pkgver.name_bytes() {
        Some(Field::Pkgver)
    }
    else if key == Field::Pkgrel.name_bytes() {
        Some(Field::Pkgrel)
    }
    else if key == Field::Epoch.name_bytes() {
        Some(Field::Epoch)
    }
    else if key == Field::Pkgdesc.name_bytes() {
        Some(Field::Pkgdesc)
    }
    else if key == Field::Url.name_bytes() {
        Some(Field::Url)
    }
    else if key == Field::License.name_bytes() {
        Some(Field::License)
    }
    else if key == Field::Source.name_bytes() {
        Some(Field::Source)
    }
    else if key == Field::Makedepends.name_bytes() {
        Some(Field::Makedepends)
    }
    else if key == Field::Package.name_bytes() {
        Some(Field::Package)
    }
    else if key == Field::Build.name_bytes() {
        Some(Field::Build)
    }
    else if key == Field::Prepare.name_bytes() {
        Some(Field::Prepare)
    }
    else {
        None
    }
}

/// A manifest's bytes that the grammar names.
pub const LF: u8 = 0x0a;
pub const CR: u8 = 0x0d;
pub const HASH: u8 = 0x23;
pub const DQUOTE: u8 = 0x22;
pub const SQUOTE: u8 = 0x27;
pub const LPAREN: u8 = 0x28;
pub const RPAREN: u8 = 0x29;
pub const EQUALS: u8 = 0x3d;
pub const LBRACE: u8 = 0x7b;
pub const RBRACE: u8 = 0x7d;

/// `b` without one trailing carriage return.
pub open spec fn strip_cr(b: Seq<u8>) -> Seq<u8> {
    if b.len() > 0 && b.last() == CR {
        b.drop_last()
    } else {
        b
    }
}

/// Every sequence in `items` is valid UTF-8.
pub open spec fn all_valid(items: Seq<Seq<u8>>) -> bool {
    forall|k: int| 0 <= k < items.len() ==> valid_utf8(#[trigger] items[k])
}

/// The text that each sequence of `items` encodes.
pub open spec fn decode_all(items: Seq<Seq<u8>>) -> Seq<Seq<char>> {
    items.map_values(|b: Seq<u8>| decode_utf8(b))
}

/// A single-valued field read at `i` (just after `=`): the position after
/// it, and its raw bytes, or `None` where the line is empty, which unsets the
/// field. A value is either quoted with `"` or `'` and runs to the matching
/// quote (which may be missing at the end of the input), or unquoted and runs
/// to the end of the line. One trailing carriage return is dropped.
pub open spec fn str_field(s: Seq<u8>, i: int) -> (int, Option<Seq<u8>>) {
    let j = span(s, i, BytePred::InlineWhitespace);
    if j < s.len() && (s[j] == DQUOTE || s[j] == SQUOTE) {
        let k = span(s, j + 1, BytePred::Not(s[j]));
        (if k < s.len() { k + 1 } else { k }, Some(strip_cr(s.subrange(j + 1, k))))
    } else if j < s.len() && s[j] == LF {
        (j + 1, None)
    } else {
        let k = span(s, j, BytePred::Not(LF));
        (k, Some(strip_cr(s.subrange(j, k))))
    }
}

/// One list item at `k`: the position after it and its raw bytes. An item is
/// quoted with `"` or `'`, or a bare word that ends at whitespace or `)`.
pub open spec fn list_item(s: Seq<u8>, k: int) -> (int, Seq<u8>) {
    if 0 <= k < s.len() && (s[k] == DQUOTE || s[k] == SQUOTE) {
        let q = span(s, k + 1, BytePred::Not(s[k]));
        (if q < s.len() { q + 1 } else { q }, strip_cr(s.subrange(k + 1, q)))
    } else {
        let q = span(s, k, BytePred::ListWord);
        (q, strip_cr(s.subrange(k, q)))
    }
}

/// The items of a list from `k` on: the position after the closing `)` (or
/// the end of the input, which also ends a list) and the raw items. A `#`
/// starts a comment that runs to the end of the line.
pub open spec fn list_items(s: Seq<u8>, k: int) -> (int, Seq<Seq<u8>>)
    decreases s.len() - k,
{
    if k < 0 || k >= s.len() {
        (k, seq![])
    } else if s[k] == HASH {
        let m = span(s, span(s, k, BytePred::Not(LF)), BytePred::Whitespace);
        if k < m <= s.len() {
            list_items(s, m)
        } else {
            (m, seq![])
        }
    } else if s[k] == RPAREN {
        (k + 1, seq![])
    } else {
        let (e, item) = list_item(s, k);
        let n = span(s, e, BytePred::Whitespace);
        if k < n <= s.len() {
            let (end, rest) = list_items(s, n);
            (end, seq![item] + rest)
        } else {
            (n, seq![item])
        }
    }
}

/// Where reading the items of a list from `k` stops when one of them is not
/// valid UTF-8: just after the first such item (before the blank space that
/// follows it). Where every item is valid, where the list ends.
pub open spec fn bad_item_end(s: Seq<u8>, k: int) -> int
    decreases s.len() - k,
{
    if k < 0 || k >= s.len() {
        k
    } else if s[k] == HASH {
        let m = span(s, span(s, k, BytePred::Not(LF)), BytePred::Whitespace);
        if k < m <= s.len() {
            bad_item_end(s, m)
        } else {
            m
        }
    } else if s[k] == RPAREN {
        k + 1
    } else {
        let (e, item) = list_item(s, k);
        let n = span(s, e, BytePred::Whitespace);
        if !valid_utf8(item) {
            e
        } else if k < n <= s.len() {
            bad_item_end(s, n)
        } else {
            n
        }
    }
}

/// The number of items at the front of `items` that are valid UTF-8.
pub open spec fn leading_valid(items: Seq<Seq<u8>>) -> nat
    decreases items.len(),
{
    if items.len() == 0 || !valid_utf8(items[0]) {
        0
    } else {
        1 + leading_valid(items.drop_first())
    }
}

/// Valid items in front add to the count of leading valid items.
pub proof fn lemma_leading_valid_append(a: Seq<Seq<u8>>, b: Seq<Seq<u8>>)
    requires
        all_valid(a),
    ensures
        leading_valid(a + b) == a.len() + leading_valid(b),
    decreases a.len(),
{
    if a.len() == 0 {
        assert(a + b =~= b);
    } else {
        assert((a + b)[0] == a[0]);
        assert(valid_utf8(a[0]));
        assert((a + b).drop_first() =~= a.drop_first() + b);
        assert(all_valid(a.drop_first())) by {
            assert forall|k: int| 0 <= k < a.drop_first().len() implies valid_utf8(
                #[trigger] a.drop_first()[k],
            ) by {
                assert(a.drop_first()[k] == a[k + 1]);
            }
        }
        lemma_leading_valid_append(a.drop_first(), b);
    }
}

/// A list field read at `i` (just after `=`): it must open with `(`.
pub open spec fn list_field(s: Seq<u8>, i: int) -> Result<(int, Seq<Seq<u8>>), Failure> {
    let j = span(s, i, BytePred::Whitespace);
    if j >= s.len() {
        Err(Failure::Eof)
    } else if s[j] != LPAREN {
        Err(Failure::Byte(s[j]))
    } else {
        Ok(list_items(s, span(s, j + 1, BytePred::Whitespace)))
    }
}

/// A function body from `i`, inside `depth` unclosed braces: it runs to the
/// `}` that closes the function (which is consumed but not kept), or to the
/// end of the input.
pub open spec fn script_body(s: Seq<u8>, i: int, depth: nat) -> (int, Seq<u8>)
    decreases s.len() - i,
{
    if i < 0 || i >= s.len() {
        (i, seq![])
    } else if s[i] == RBRACE && depth == 0 {
        (i + 1, seq![])
    } else {
        let d = if s[i] == LBRACE {
            depth + 1
        } else if s[i] == RBRACE {
            (depth - 1) as nat
        } else {
            depth
        };
        let (e, rest) = script_body(s, i + 1, d);
        (e, seq![s[i]] + rest)
    }
}

/// The fields read so far.
pub struct DraftV {
    pub pkgname: Option<Seq<char>>,
    pub pkgver: Option<Seq<char>>,
    pub pkgrel: Option<Seq<char>>,
    pub epoch: Option<Seq<char>>,
    pub pkgdesc: Option<Seq<char>>,
    pub url: Option<Seq<char>>,
    pub license: Seq<Seq<char>>,
    pub source: Seq<Seq<char>>,
    pub makedepends: Seq<Seq<char>>,
    pub package: Option<Seq<char>>,
    pub build: Option<Seq<char>>,
    pub prepare: Option<Seq<char>>,
}

impl DraftV {
    /// Nothing read yet.
    pub open spec fn empty() -> DraftV {
        DraftV {
            pkgname: None,
            pkgver: None,
            pkgrel: None,
            epoch: None,
            pkgdesc: None,
            url: None,
            license: seq![],
            source: seq![],
            makedepends: seq![],
            package: None,
            build: None,
            prepare: None,
        }
    }

    /// A single-valued field set to `v` (unset where `v` is `None`).
    pub open spec fn assign(self, f: Field, v: Option<Seq<char>>) -> DraftV {
        match f {
            Field::Pkgname => DraftV { pkgname: v, ..self },
            Field::Pkgver => DraftV { pkgver: v, ..self },
            Field::Pkgrel => DraftV { pkgrel: v, ..self },
            Field::Epoch => DraftV { epoch: v, ..self },
            Field::Pkgdesc => DraftV { pkgdesc: v, ..self },
            Field::Url => DraftV { url: v, ..self },
            _ => self,
        }
    }

    /// A list field with `items` appended.
    pub open spec fn extend(self, f: Field, items: Seq<Seq<char>>) -> DraftV {
        match f {
            Field::License => DraftV { license: self.license + items, ..self },
            Field::Source => DraftV { source: self.source + items, ..self },
            Field::Makedepends => DraftV { makedepends: self.makedepends + items, ..self },
            _ => self,
        }
    }

    /// A function defined with body `body`.
    pub open spec fn define(self, f: Field, body: Seq<char>) -> DraftV {
        match f {
            Field::Package => DraftV { package: Some(body), ..self },
            Field::Build => DraftV { build: Some(body), ..self },
            Field::Prepare => DraftV { prepare: Some(body), ..self },
            _ => self,
        }
    }
}

/// What one entry does to the fields read so far.
pub enum Step {
    /// No further entry: reading ends here.
    Done,
    /// The manifest is refused.
    Fail(Failure),
    /// The entry ends at the given position and leaves these fields.
    Next(int, DraftV),
}

/// An assignment `key=...` whose value starts at `i`.
pub open spec fn assignment_step(s: Seq<u8>, i: int, key: Seq<u8>, d: DraftV) -> Step {
    match field_of(key) {
        Some(f) => if f.kind() == Kind::Str {
            let (e, out) = str_field(s, i);
            match out {
                None => Step::Next(e, d.assign(f, None)),
                Some(b) => if valid_utf8(b) {
                    Step::Next(e, d.assign(f, Some(decode_utf8(b))))
                } else {
                    Step::Fail(Failure::Utf8)
                },
            }
        } else if f.kind() == Kind::List {
            match list_field(s, i) {
                Err(x) => Step::Fail(x),
                Ok((e, items)) => if all_valid(items) {
                    Step::Next(e, d.extend(f, decode_all(items)))
                } else {
                    Step::Fail(Failure::Utf8)
                },
            }
        } else {
            Step::Fail(Failure::UnknownField(decode_utf8(key)))
        },
        None => Step::Fail(Failure::UnknownField(decode_utf8(key))),
    }
}

/// A function `key() { ... }`, from just after its `(` at `i`.
pub open spec fn function_step(s: Seq<u8>, i: int, key: Seq<u8>, d: DraftV) -> Step {
    if i >= s.len() {
        Step::Fail(Failure::Eof)
    } else if s[i] != RPAREN {
        Step::Fail(Failure::Byte(s[i]))
    } else {
        let u = span(s, i + 1, BytePred::Whitespace);
        if u >= s.len() {
            Step::Fail(Failure::Eof)
        } else if s[u] != LBRACE {
            Step::Fail(Failure::Byte(s[u]))
        } else {
            let (e, body) = script_body(s, span(s, u + 1, BytePred::Whitespace), 0);
            if !valid_utf8(body) {
                Step::Fail(Failure::Utf8)
            } else {
                match field_of(key) {
                    Some(f) => if f.kind() == Kind::Script {
                        Step::Next(e, d.define(f, decode_utf8(body)))
                    } else {
                        Step::Fail(Failure::UnknownScript(decode_utf8(key)))
                    },
                    None => Step::Fail(Failure::UnknownScript(decode_utf8(key))),
                }
            }
        }
    }
}

/// The entry that starts at `i`, after any whitespace.
pub open spec fn entry_step(s: Seq<u8>, i: int, d: DraftV) -> Step {
    let j = span(s, i, BytePred::Whitespace);
    let k = span(s, j, BytePred::Alphabetic);
    if k == j {
        if j < s.len() && s[j] == HASH {
            let m = span(s, j, BytePred::Not(LF));
            Step::Next(if m < s.len() { m + 1 } else { m }, d)
        } else {
            Step::Done
        }
    } else {
        let key = s.subrange(j, k);
        let t = span(s, k, BytePred::Whitespace);
        if t >= s.len() {
            Step::Fail(Failure::Eof)
        } else if s[t] == EQUALS {
            assignment_step(s, t + 1, key, d)
        } else if s[t] == LPAREN {
            function_step(s, t + 1, key, d)
        } else {
            Step::Fail(Failure::Byte(s[t]))
        }
    }
}

/// All entries from `i` on, applied to `d`.
pub open spec fn entries(s: Seq<u8>, i: int, d: DraftV) -> Result<DraftV, Failure>
    decreases s.len() - i,
{
    match entry_step(s, i, d) {
        Step::Done => Ok(d),
        Step::Fail(f) => Err(f),
        Step::Next(e, d2) => if i < e <= s.len() {
            entries(s, e, d2)
        } else {
            Ok(d2)
        },
    }
}

/// The fields of a manifest, as text.
pub struct PkgBuildV {
    pub pkgname: Seq<char>,
    pub pkgver: Seq<char>,
    pub pkgrel: Option<Seq<char>>,
    pub epoch: Option<Seq<char>>,
    pub pkgdesc: Option<Seq<char>>,
    pub url: Option<Seq<char>>,
    pub license: Seq<Seq<char>>,
    pub source: Seq<Seq<char>>,
    pub makedepends: Seq<Seq<char>>,
    pub package: Seq<char>,
    pub build: Seq<char>,
    pub prepare: Seq<char>,
}

/// The manifest that the fields read make up, or the first required field
/// that is missing (in the order pkgname, pkgver, package, build, prepare).
pub open spec fn assemble(d: DraftV) -> Result<PkgBuildV, Failure> {
    if d.pkgname is None {
        Err(Failure::Missing(Field::Pkgname))
    } else if d.pkgver is None {
        Err(Failure::Missing(Field::Pkgver))
    } else if d.package is None {
        Err(Failure::Missing(Field::Package))
    } else if d.build is None {
        Err(Failure::Missing(Field::Build))
    } else if d.prepare is None {
        Err(Failure::Missing(Field::Prepare))
    } else {
        Ok(PkgBuildV {
            pkgname: d.pkgname.unwrap(),
            pkgver: d.pkgver.unwrap(),
            pkgrel: d.pkgrel,
            epoch: d.epoch,
            pkgdesc: d.pkgdesc,
            url: d.url,
            license: d.license,
            source: d.source,
            makedepends: d.makedepends,
            package: d.package.unwrap(),
            build: d.build.unwrap(),
            prepare: d.prepare.unwrap(),
        })
    }
}

/// The fields that the bytes `s` define, before `$name` references are
/// expanded.
pub open spec fn scan(s: Seq<u8>) -> Result<PkgBuildV, Failure> {
    match entries(s, 0, DraftV::empty()) {
        Ok(d) => assemble(d),
        Err(f) => Err(f),
    }
}

/// A single-valued field ends within the input, after where it starts.
pub proof fn lemma_str_field_bounds(s: Seq<u8>, i: int)
    requires
        0 <= i <= s.len(),
    ensures
        i <= str_field(s, i).0 <= s.len(),
{
    lemma_span(s, i, BytePred::InlineWhitespace);
    let j = span(s, i, BytePred::InlineWhitespace);
    if j < s.len() && (s[j] == DQUOTE || s[j] == SQUOTE) {
        lemma_span(s, j + 1, BytePred::Not(s[j]));
    } else {
        lemma_span(s, j, BytePred::Not(LF));
    }
}

/// The items of a list end within the input, after where they start.
pub proof fn lemma_list_items_bounds(s: Seq<u8>, k: int)
    requires
        0 <= k <= s.len(),
    ensures
        k <= list_items(s, k).0 <= s.len(),
    decreases s.len() - k,
{
    if k < s.len() {
        if s[k] == HASH {
            lemma_span(s, k, BytePred::Not(LF));
            lemma_span(s, span(s, k, BytePred::Not(LF)), BytePred::Whitespace);
            let m = span(s, span(s, k, BytePred::Not(LF)), BytePred::Whitespace);
            if k < m <= s.len() {
                lemma_list_items_bounds(s, m);
            }
        } else if s[k] != RPAREN {
            let (e, item) = list_item(s, k);
            if s[k] == DQUOTE || s[k] == SQUOTE {
                lemma_span(s, k + 1, BytePred::Not(s[k]));
            } else {
                lemma_span(s, k, BytePred::ListWord);
            }
            lemma_span(s, e, BytePred::Whitespace);
            let n = span(s, e, BytePred::Whitespace);
            if k < n <= s.len() {
                lemma_list_items_bounds(s, n);
            }
        }
    }
}

/// A function body ends within the input, after where it starts.
pub proof fn lemma_script_body_bounds(s: Seq<u8>, i: int, depth: nat)
    requires
        0 <= i <= s.len(),
    ensures
        i <= script_body(s, i, depth).0 <= s.len(),
    decreases s.len() - i,
{
    if i < s.len() && !(s[i] == RBRACE && depth == 0) {
        let d = if s[i] == LBRACE {
            depth + 1
        } else if s[i] == RBRACE {
            (depth - 1) as nat
        } else {
            depth
        };
        lemma_script_body_bounds(s, i + 1, d);
    }
}

/// Every entry read moves past where it starts, and stays within the input.
pub proof fn lemma_entry_progress(s: Seq<u8>, i: int, d: DraftV)
    requires
        0 <= i <= s.len(),
    ensures
        entry_step(s, i, d) matches Step::Next(e, _) ==> i < e <= s.len(),
{
    lemma_span(s, i, BytePred::Whitespace);
    let j = span(s, i, BytePred::Whitespace);
    lemma_span(s, j, BytePred::Alphabetic);
    let k = span(s, j, BytePred::Alphabetic);
    if k == j {
        if j < s.len() && s[j] == HASH {
            lemma_span(s, j, BytePred::Not(LF));
        }
    } else {
        lemma_span(s, k, BytePred::Whitespace);
        let t = span(s, k, BytePred::Whitespace);
        if t < s.len() {
            if s[t] == EQUALS {
                lemma_str_field_bounds(s, t + 1);
                lemma_span(s, t + 1, BytePred::Whitespace);
                let jj = span(s, t + 1, BytePred::Whitespace);
                if jj < s.len() {
                    lemma_span(s, jj + 1, BytePred::Whitespace);
                    lemma_list_items_bounds(s, span(s, jj + 1, BytePred::Whitespace));
                }
            } else if s[t] == LPAREN && t + 1 < s.len() {
                lemma_span(s, t + 2, BytePred::Whitespace);
                let u = span(s, t + 2, BytePred::Whitespace);
                if u < s.len() {
                    lemma_span(s, u + 1, BytePred::Whitespace);
                    lemma_script_body_bounds(s, span(s, u + 1, BytePred::Whitespace), 0);
                }
            }
        }
    }
}

/// The number of `{` in `b` less the number of `}`.
pub open spec fn brace_balance(b: Seq<u8>) -> int
    decreases b.len(),
{
    if b.len() == 0 {
        0
    } else {
        (if b[0] == LBRACE {
            1int
        } else if b[0] == RBRACE {
            -1int
        } else {
            0int
        }) + brace_balance(b.drop_first())
    }
}

/// A function body is the bytes of the input from where it starts, in
/// order. It ends at the end of the input, or at the `}` that closes the
/// function; then it holds as many `{` as `}` and no prefix of it holds more
/// `}` than `{` (with `depth` braces already open).
pub proof fn lemma_script_body_balanced(s: Seq<u8>, i: int, depth: nat)
    requires
        0 <= i <= s.len(),
    ensures
        ({
            let (e, b) = script_body(s, i, depth);
            &&& i + b.len() <= s.len()
            &&& b == s.subrange(i, i + b.len())
            &&& (e == i + b.len() && e == s.len()) || (e == i + b.len() + 1 && s[e - 1] == RBRACE
                && brace_balance(b) + depth == 0)
            &&& forall|j: int| 0 <= j <= b.len() ==> brace_balance(#[trigger] b.take(j)) + depth >= 0
        }),
    decreases s.len() - i,
{
    let (e, b) = script_body(s, i, depth);
    if i >= s.len() {
        assert forall|j: int| 0 <= j <= b.len() implies brace_balance(#[trigger] b.take(j)) + depth >= 0 by {
            assert(b.take(j) =~= Seq::<u8>::empty());
        }
    } else if s[i] == RBRACE && depth == 0 {
        assert forall|j: int| 0 <= j <= b.len() implies brace_balance(#[trigger] b.take(j)) + depth >= 0 by {
            assert(b.take(j) =~= Seq::<u8>::empty());
        }
    } else {
        let d = if s[i] == LBRACE {
            depth + 1
        } else if s[i] == RBRACE {
            (depth - 1) as nat
        } else {
            depth
        };
        lemma_script_body_balanced(s, i + 1, d);
        let (e2, rest) = script_body(s, i + 1, d);
        assert(b == seq![s[i]] + rest);
        assert(b.drop_first() =~= rest);
        assert(b =~= s.subrange(i, i + b.len()));
        assert forall|j: int| 0 <= j <= b.len() implies brace_balance(#[trigger] b.take(j)) + depth >= 0 by {
            if j > 0 {
                assert(b.take(j).drop_first() =~= rest.take(j - 1));
                assert(b.take(j)[0] == s[i]);
                assert(brace_balance(rest.take(j - 1)) + d >= 0);
            }
        }
    }
}

/// A value written on its own line reads back as written: unquoted, when it
/// neither starts with a quote or with whitespace nor ends with a carriage
/// return; the line feed that ends it is left for the next entry.
pub proof fn lemma_str_field_plain(v: Seq<u8>, rest: Seq<u8>)
    requires
        v.len() > 0,
        v[0] != DQUOTE && v[0] != SQUOTE && !crate::reader::is_ws(v[0]),
        v.last() != CR,
        forall|j: int| 0 <= j < v.len() ==> #[trigger] v[j] != LF,
    ensures
        str_field(v + seq![LF] + rest, 0) == (v.len() as int, Some(v)),
{
    let s = v + seq![LF] + rest;
    assert(s[0] == v[0]);
    assert(span(s, 0, BytePred::InlineWhitespace) == 0);
    lemma_span_run(s, 0, v.len() as int, BytePred::Not(LF));
    assert(s[v.len() as int] == LF);
    assert(s.subrange(0, v.len() as int) =~= v);
}

/// A quoted value reads back as written, whatever it holds but its quote
/// and a trailing carriage return; reading goes on after the closing quote.
pub proof fn lemma_str_field_quoted(q: u8, v: Seq<u8>, rest: Seq<u8>)
    requires
        q == DQUOTE || q == SQUOTE,
        v.len() > 0 ==> v.last() != CR,
        forall|j: int| 0 <= j < v.len() ==> #[trigger] v[j] != q,
    ensures
        str_field(seq![q] + v + seq![q] + rest, 0) == (v.len() + 2int, Some(v)),
{
    let s = seq![q] + v + seq![q] + rest;
    assert(s[0] == q);
    assert(span(s, 0, BytePred::InlineWhitespace) == 0);
    assert forall|j: int| 1 <= j < 1 + v.len() implies BytePred::Not(q).holds(#[trigger] s[j]) by {
        assert(s[j] == v[j - 1]);
    }
    lemma_span_run(s, 1, v.len() + 1int, BytePred::Not(q));
    assert(s[v.len() + 1int] == q);
    assert(s.subrange(1, v.len() + 1int) =~= v);
}

/// A run of `p`-bytes from `i` up to a byte at `k` that is not in `p` ends
/// at `k`.
pub proof fn lemma_span_run(s: Seq<u8>, i: int, k: int, p: BytePred)
    requires
        0 <= i <= k <= s.len(),
        forall|j: int| i <= j < k ==> p.holds(#[trigger] s[j]),
        k < s.len() ==> !p.holds(s[k]),
    ensures
        span(s, i, p) == k,
    decreases k - i,
{
    if i < k {
        lemma_span_run(s, i + 1, k, p);
    }
}

} // verus!
