//! What each kind of entry, written out plainly, reads back as.
use vstd::prelude::*;
use vstd::utf8::{decode_utf8, valid_utf8};
use crate::grammar::{
    all_valid, decode_all, entries, entry_step, field_of, lemma_span_run, lemma_str_field_plain,
    list_field, list_item, list_items, scan, script_body, str_field, strip_cr, DraftV, Field, Kind,
    PkgBuildV, Step,
    CR, DQUOTE, EQUALS, LBRACE, LF, LPAREN, RBRACE, RPAREN, SQUOTE,
};
use crate::error::Failure;
use crate::expand::expanded;
use crate::pkgbuild::parse_spec;
use crate::locality::{
    lemma_entries_after_whitespace, lemma_entries_shift, lemma_list_items_shift,
    lemma_str_field_shift,
};
use crate::reader::{is_alpha, is_ws, span, BytePred};

verus! {

/// Every field's name is made of letters and names that field.
pub proof fn lemma_field_of_name(f: Field)
    ensures
        field_of(f.name_bytes()) == Some(f),
        f.name_bytes().len() > 0,
        forall|j: int| 0 <= j < f.name_bytes().len() ==> is_alpha(#[trigger] f.name_bytes()[j]),
{
    let n = f.name_bytes();
    assert(Field::Pkgname.name_bytes()[3] == 0x6eu8);
    assert(Field::Pkgver.name_bytes()[3] == 0x76u8);
    assert(Field::Pkgrel.name_bytes()[3] == 0x72u8);
    assert(Field::Pkgdesc.name_bytes()[3] == 0x64u8);
    assert(Field::License.name_bytes()[0] == 0x6cu8);
    assert(Field::Package.name_bytes()[0] == 0x70u8);
    assert(Field::Prepare.name_bytes()[1] == 0x72u8);
    assert(Field::Package.name_bytes()[1] == 0x61u8);
    assert(Field::Source.name_bytes()[0] == 0x73u8);
    assert(Field::Pkgver.name_bytes()[0] == 0x70u8);
    assert(Field::Pkgrel.name_bytes()[0] == 0x70u8);
}

/// A key followed by `=` is read as that key, up to the `=`.
proof fn lemma_key(f: Field, tail: Seq<u8>)
    requires
        tail.len() > 0,
        !is_ws(tail[0]) && !is_alpha(tail[0]),
    ensures
        ({
            let x = f.name_bytes() + tail;
            let n = f.name_bytes().len() as int;
            &&& span(x, 0, BytePred::Whitespace) == 0
            &&& span(x, 0, BytePred::Alphabetic) == n
            &&& x.subrange(0, n) == f.name_bytes()
            &&& span(x, n, BytePred::Whitespace) == n
            &&& x[n] == tail[0]
        }),
{
    lemma_field_of_name(f);
    let k = f.name_bytes();
    let x = k + tail;
    let n = k.len() as int;
    assert(x[0] == k[0]);
    assert(is_alpha(k[0]));
    assert(x[n] == tail[0]);
    assert forall|j: int| 0 <= j < n implies BytePred::Alphabetic.holds(#[trigger] x[j]) by {
        assert(x[j] == k[j]);
    }
    lemma_span_run(x, 0, n, BytePred::Alphabetic);
    assert(x.subrange(0, n) =~= k);
}

/// An assignment `name=value` on a line of its own sets the field to the
/// value, as written, and reading goes on with the next line.
pub proof fn lemma_assignment_entry(f: Field, v: Seq<u8>, rest: Seq<u8>, d: DraftV)
    requires
        f.kind() == Kind::Str,
        v.len() > 0,
        v[0] != DQUOTE && v[0] != SQUOTE && !is_ws(v[0]),
        v.last() != CR,
        forall|j: int| 0 <= j < v.len() ==> #[trigger] v[j] != LF,
        valid_utf8(v),
    ensures
        entries(f.name_bytes() + seq![EQUALS] + v + seq![LF] + rest, 0, d) == entries(
            rest,
            0,
            d.assign(f, Some(decode_utf8(v))),
        ),
{
    lemma_field_of_name(f);
    let k = f.name_bytes();
    let n = k.len() as int;
    let tail = seq![EQUALS] + v + seq![LF] + rest;
    let x = f.name_bytes() + seq![EQUALS] + v + seq![LF] + rest;
    assert(x =~= k + tail);
    assert(tail[0] == EQUALS);
    lemma_key(f, tail);
    let p = k + seq![EQUALS];
    let s = v + seq![LF] + rest;
    assert(x =~= p + s);
    lemma_str_field_plain(v, rest);
    lemma_str_field_shift(p, s, 0);
    assert(str_field(x, n + 1) == (n + 1 + v.len(), Some(v)));
    let d2 = d.assign(f, Some(decode_utf8(v)));
    assert(entry_step(x, 0, d) == Step::Next(n + 1 + v.len(), d2));
    let p2 = k + seq![EQUALS] + v;
    let s2 = seq![LF] + rest;
    assert(x =~= p2 + s2);
    lemma_entries_shift(p2, s2, 0, d2);
    assert(is_ws(s2[0]));
    assert(seq![LF] + rest == s2);
    lemma_entries_after_whitespace(seq![LF], rest, d2);
}

/// A body without braces, closed by `}`, is read as written.
proof fn lemma_script_body_plain(s: Seq<u8>, i: int, k: int)
    requires
        0 <= i <= k < s.len(),
        forall|j: int| i <= j < k ==> #[trigger] s[j] != LBRACE && s[j] != RBRACE,
        s[k] == RBRACE,
    ensures
        script_body(s, i, 0) == (k + 1, s.subrange(i, k)),
    decreases k - i,
{
    if i == k {
        assert(s.subrange(i, k) =~= Seq::<u8>::empty());
    } else {
        lemma_script_body_plain(s, i + 1, k);
        assert(seq![s[i]] + s.subrange(i + 1, k) =~= s.subrange(i, k));
    }
}

/// A function `name() {body}`, with a body without braces that does not
/// start with blank space, defines the script as written, and reading goes
/// on after its closing brace.
pub proof fn lemma_function_entry(f: Field, body: Seq<u8>, rest: Seq<u8>, d: DraftV)
    requires
        f.kind() == Kind::Script,
        forall|j: int| 0 <= j < body.len() ==> #[trigger] body[j] != LBRACE && body[j] != RBRACE,
        body.len() > 0 ==> !is_ws(body[0]),
        valid_utf8(body),
    ensures
        entries(
            f.name_bytes() + seq![LPAREN, RPAREN, 0x20u8, LBRACE] + body + seq![RBRACE] + rest,
            0,
            d,
        ) == entries(rest, 0, d.define(f, decode_utf8(body))),
{
    lemma_field_of_name(f);
    let k = f.name_bytes();
    let n = k.len() as int;
    let head = seq![LPAREN, RPAREN, 0x20u8, LBRACE];
    let x = f.name_bytes() + head + body + seq![RBRACE] + rest;
    let tail = head + body + seq![RBRACE] + rest;
    assert(x =~= k + tail);
    assert(tail[0] == LPAREN);
    lemma_key(f, tail);
    assert(x[n + 1] == RPAREN);
    assert(x[n + 2] == 0x20u8);
    assert(x[n + 3] == LBRACE);
    lemma_span_run(x, n + 2, n + 3, BytePred::Whitespace);
    let m = body.len() as int;
    assert(x[n + 4 + m] == RBRACE);
    if m > 0 {
        assert(x[n + 4] == body[0]);
    }
    lemma_span_run(x, n + 4, n + 4, BytePred::Whitespace);
    assert forall|j: int| n + 4 <= j < n + 4 + m implies #[trigger] x[j] != LBRACE && x[j] != RBRACE by {
        assert(x[j] == body[j - n - 4]);
    }
    lemma_script_body_plain(x, n + 4, n + 4 + m);
    assert(x.subrange(n + 4, n + 4 + m) =~= body);
    let d2 = d.define(f, decode_utf8(body));
    assert(entry_step(x, 0, d) == Step::Next(n + 5 + m, d2));
    let p = f.name_bytes() + head + body + seq![RBRACE];
    assert(x =~= p + rest);
    lemma_entries_shift(p, rest, 0, d2);
}

/// Items written each in double quotes and followed by a space.
pub open spec fn quoted_items(items: Seq<Seq<u8>>) -> Seq<u8>
    decreases items.len(),
{
    if items.len() == 0 {
        seq![]
    } else {
        seq![DQUOTE] + items[0] + seq![DQUOTE, 0x20u8] + quoted_items(items.drop_first())
    }
}

/// Items that can be written in double quotes and read back as written.
pub open spec fn quotable(items: Seq<Seq<u8>>) -> bool {
    forall|i: int|
        0 <= i < items.len() ==> (forall|j: int|
            0 <= j < items[i].len() ==> #[trigger] items[i][j] != DQUOTE) && (items[i].len() > 0
            ==> (#[trigger] items[i]).last() != CR)
}

/// Quoted items up to a `)` read back as the items.
proof fn lemma_list_items_quoted(items: Seq<Seq<u8>>, rest: Seq<u8>)
    requires
        quotable(items),
    ensures
        list_items(quoted_items(items) + seq![RPAREN] + rest, 0) == (
            quoted_items(items).len() + 1int,
            items,
        ),
    decreases items.len(),
{
    let s = quoted_items(items) + seq![RPAREN] + rest;
    if items.len() == 0 {
        assert(s[0] == RPAREN);
        assert(items =~= Seq::<Seq<u8>>::empty());
    } else {
        let it = items[0];
        let tail = items.drop_first();
        assert(quotable(tail)) by {
            assert forall|i: int| 0 <= i < tail.len() implies (forall|j: int|
                0 <= j < tail[i].len() ==> #[trigger] tail[i][j] != DQUOTE) && (tail[i].len() > 0
                ==> (#[trigger] tail[i]).last() != CR) by {
                assert(tail[i] == items[i + 1]);
            }
        }
        lemma_list_items_quoted(tail, rest);
        let a = seq![DQUOTE] + it + seq![DQUOTE, 0x20u8];
        let s2 = quoted_items(tail) + seq![RPAREN] + rest;
        assert(s =~= a + s2);
        let m = it.len() as int;
        assert(s[0] == DQUOTE);
        assert forall|j: int| 1 <= j < 1 + m implies BytePred::Not(DQUOTE).holds(#[trigger] s[j]) by {
            assert(s[j] == it[j - 1]);
        }
        assert(s[1 + m] == DQUOTE);
        lemma_span_run(s, 1, 1 + m, BytePred::Not(DQUOTE));
        assert(s.subrange(1, 1 + m) =~= it);
        assert(strip_cr(it) == it);
        assert(list_item(s, 0) == (m + 2, it));
        assert(s[m + 2] == 0x20u8);
        if tail.len() > 0 {
            assert(s2[0] == DQUOTE);
        } else {
            assert(s2[0] == RPAREN);
        }
        assert(s[m + 3] == s2[0]);
        lemma_span_run(s, m + 2, m + 3, BytePred::Whitespace);
        lemma_list_items_shift(a, s2, 0);
        assert(seq![it] + tail =~= items);
    }
}

/// A list `name=("item" "item" ... )`, with items free of double quotes and
/// of trailing carriage returns, appends the items as written to the field,
/// and reading goes on after its closing parenthesis.
pub proof fn lemma_list_entry(f: Field, items: Seq<Seq<u8>>, rest: Seq<u8>, d: DraftV)
    requires
        f.kind() == Kind::List,
        quotable(items),
        all_valid(items),
    ensures
        entries(
            f.name_bytes() + seq![EQUALS, LPAREN] + quoted_items(items) + seq![RPAREN] + rest,
            0,
            d,
        ) == entries(rest, 0, d.extend(f, decode_all(items))),
{
    lemma_field_of_name(f);
    let k = f.name_bytes();
    let n = k.len() as int;
    let x = f.name_bytes() + seq![EQUALS, LPAREN] + quoted_items(items) + seq![RPAREN] + rest;
    let tail = seq![EQUALS, LPAREN] + quoted_items(items) + seq![RPAREN] + rest;
    assert(x =~= k + tail);
    assert(tail[0] == EQUALS);
    lemma_key(f, tail);
    assert(x[n + 1] == LPAREN);
    lemma_span_run(x, n + 1, n + 1, BytePred::Whitespace);
    let p = k + seq![EQUALS, LPAREN];
    let s = quoted_items(items) + seq![RPAREN] + rest;
    assert(x =~= p + s);
    if items.len() > 0 {
        assert(s[0] == DQUOTE);
    } else {
        assert(s[0] == RPAREN);
    }
    assert(x[n + 2] == s[0]);
    lemma_span_run(x, n + 2, n + 2, BytePred::Whitespace);
    lemma_list_items_quoted(items, rest);
    lemma_list_items_shift(p, s, 0);
    let e = n + 2 + quoted_items(items).len() + 1;
    assert(list_field(x, n + 1) == Ok::<(int, Seq<Seq<u8>>), crate::error::Failure>((e, items)));
    let d2 = d.extend(f, decode_all(items));
    assert(entry_step(x, 0, d) == Step::Next(e, d2));
    let p2 = k + seq![EQUALS, LPAREN] + quoted_items(items) + seq![RPAREN];
    assert(x =~= p2 + rest);
    lemma_entries_shift(p2, rest, 0, d2);
}

/// The raw values of a manifest to write.
pub struct Written {
    pub pkgname: Seq<u8>,
    pub pkgver: Seq<u8>,
    pub pkgrel: Option<Seq<u8>>,
    pub epoch: Option<Seq<u8>>,
    pub pkgdesc: Option<Seq<u8>>,
    pub url: Option<Seq<u8>>,
    pub license: Seq<Seq<u8>>,
    pub source: Seq<Seq<u8>>,
    pub makedepends: Seq<Seq<u8>>,
    pub package: Seq<u8>,
    pub build: Seq<u8>,
    pub prepare: Seq<u8>,
}

/// A value that can stand unquoted on a line of its own and read back as
/// written.
pub open spec fn plain_value(v: Seq<u8>) -> bool {
    &&& v.len() > 0
    &&& v[0] != DQUOTE && v[0] != SQUOTE && !is_ws(v[0])
    &&& v.last() != CR
    &&& forall|j: int| 0 <= j < v.len() ==> #[trigger] v[j] != LF
    &&& valid_utf8(v)
}

/// A function body that can be written between braces and read back as
/// written.
pub open spec fn plain_body(b: Seq<u8>) -> bool {
    &&& forall|j: int| 0 <= j < b.len() ==> #[trigger] b[j] != LBRACE && b[j] != RBRACE
    &&& b.len() > 0 ==> !is_ws(b[0])
    &&& valid_utf8(b)
}

pub open spec fn writable(w: Written) -> bool {
    &&& plain_value(w.pkgname)
    &&& plain_value(w.pkgver)
    &&& w.pkgrel matches Some(v) ==> plain_value(v)
    &&& w.epoch matches Some(v) ==> plain_value(v)
    &&& w.pkgdesc matches Some(v) ==> plain_value(v)
    &&& w.url matches Some(v) ==> plain_value(v)
    &&& quotable(w.license) && all_valid(w.license)
    &&& quotable(w.source) && all_valid(w.source)
    &&& quotable(w.makedepends) && all_valid(w.makedepends)
    &&& plain_body(w.package)
    &&& plain_body(w.build)
    &&& plain_body(w.prepare)
}

/// `name=value` on a line of its own.
pub open spec fn assignment_line(f: Field, v: Seq<u8>) -> Seq<u8> {
    f.name_bytes() + seq![EQUALS] + v + seq![LF]
}

/// An assignment line for a value that is set; nothing for one that is not.
pub open spec fn optional_line(f: Field, v: Option<Seq<u8>>) -> Seq<u8> {
    match v {
        Some(t) => assignment_line(f, t),
        None => seq![],
    }
}

/// `name=("item" ... )`.
pub open spec fn list_line(f: Field, items: Seq<Seq<u8>>) -> Seq<u8> {
    f.name_bytes() + seq![EQUALS, LPAREN] + quoted_items(items) + seq![RPAREN]
}

/// `name() {body}`.
pub open spec fn function_text(f: Field, b: Seq<u8>) -> Seq<u8> {
    f.name_bytes() + seq![LPAREN, RPAREN, 0x20u8, LBRACE] + b + seq![RBRACE]
}

/// The manifest that writes the values of `w`, one entry after another.
pub open spec fn write(w: Written) -> Seq<u8> {
    assignment_line(Field::Pkgname, w.pkgname) + (assignment_line(Field::Pkgver, w.pkgver) + (
    optional_line(Field::Pkgrel, w.pkgrel) + (optional_line(Field::Epoch, w.epoch) + (optional_line(
        Field::Pkgdesc,
        w.pkgdesc,
    ) + (optional_line(Field::Url, w.url) + (list_line(Field::License, w.license) + (list_line(
        Field::Source,
        w.source,
    ) + (list_line(Field::Makedepends, w.makedepends) + (function_text(Field::Package, w.package)
        + (function_text(Field::Build, w.build) + function_text(Field::Prepare, w.prepare)))))))))))
}

/// The text of an optional raw value.
pub open spec fn decode_opt(v: Option<Seq<u8>>) -> Option<Seq<char>> {
    match v {
        Some(t) => Some(decode_utf8(t)),
        None => None,
    }
}

/// The fields that `w` holds, as text.
pub open spec fn written_fields(w: Written) -> PkgBuildV {
    PkgBuildV {
        pkgname: decode_utf8(w.pkgname),
        pkgver: decode_utf8(w.pkgver),
        pkgrel: decode_opt(w.pkgrel),
        epoch: decode_opt(w.epoch),
        pkgdesc: decode_opt(w.pkgdesc),
        url: decode_opt(w.url),
        license: decode_all(w.license),
        source: decode_all(w.source),
        makedepends: decode_all(w.makedepends),
        package: decode_utf8(w.package),
        build: decode_utf8(w.build),
        prepare: decode_utf8(w.prepare),
    }
}

proof fn lemma_assignment_line(f: Field, v: Seq<u8>, rest: Seq<u8>, d: DraftV)
    requires
        f.kind() == Kind::Str,
        plain_value(v),
    ensures
        entries(assignment_line(f, v) + rest, 0, d) == entries(rest, 0, d.assign(f, Some(decode_utf8(v)))),
{
    lemma_assignment_entry(f, v, rest, d);
    assert(assignment_line(f, v) + rest =~= f.name_bytes() + seq![EQUALS] + v + seq![LF] + rest);
}

proof fn lemma_optional_line(f: Field, v: Option<Seq<u8>>, rest: Seq<u8>, d: DraftV)
    requires
        f.kind() == Kind::Str,
        v matches Some(t) ==> plain_value(t),
        d.assign(f, None) == d,
    ensures
        entries(optional_line(f, v) + rest, 0, d) == entries(rest, 0, d.assign(f, decode_opt(v))),
{
    match v {
        Some(t) => lemma_assignment_line(f, t, rest, d),
        None => assert(optional_line(f, v) + rest =~= rest),
    }
}

proof fn lemma_list_line(f: Field, items: Seq<Seq<u8>>, rest: Seq<u8>, d: DraftV)
    requires
        f.kind() == Kind::List,
        quotable(items),
        all_valid(items),
    ensures
        entries(list_line(f, items) + rest, 0, d) == entries(rest, 0, d.extend(f, decode_all(items))),
{
    lemma_list_entry(f, items, rest, d);
    assert(list_line(f, items) + rest =~= f.name_bytes() + seq![EQUALS, LPAREN] + quoted_items(items)
        + seq![RPAREN] + rest);
}

proof fn lemma_function_text(f: Field, b: Seq<u8>, rest: Seq<u8>, d: DraftV)
    requires
        f.kind() == Kind::Script,
        plain_body(b),
    ensures
        entries(function_text(f, b) + rest, 0, d) == entries(rest, 0, d.define(f, decode_utf8(b))),
{
    lemma_function_entry(f, b, rest, d);
    assert(function_text(f, b) + rest =~= f.name_bytes() + seq![LPAREN, RPAREN, 0x20u8, LBRACE] + b
        + seq![RBRACE] + rest);
}

/// A manifest written from values reads back exactly those values, before
/// references are expanded; and parsing it gives them with their references
/// expanded.
pub proof fn lemma_write_then_read(w: Written)
    requires
        writable(w),
    ensures
        scan(write(w)) == Ok::<PkgBuildV, Failure>(written_fields(w)),
        parse_spec(write(w)) == Ok::<PkgBuildV, Failure>(expanded(written_fields(w))),
{
    let e = DraftV::empty();
    let l1 = function_text(Field::Prepare, w.prepare);
    let l2 = function_text(Field::Build, w.build) + l1;
    let l3 = function_text(Field::Package, w.package) + l2;
    let l4 = list_line(Field::Makedepends, w.makedepends) + l3;
    let l5 = list_line(Field::Source, w.source) + l4;
    let l6 = list_line(Field::License, w.license) + l5;
    let l7 = optional_line(Field::Url, w.url) + l6;
    let l8 = optional_line(Field::Pkgdesc, w.pkgdesc) + l7;
    let l9 = optional_line(Field::Epoch, w.epoch) + l8;
    let l10 = optional_line(Field::Pkgrel, w.pkgrel) + l9;
    let l11 = assignment_line(Field::Pkgver, w.pkgver) + l10;
    assert(write(w) == assignment_line(Field::Pkgname, w.pkgname) + l11);
    let d1 = e.assign(Field::Pkgname, Some(decode_utf8(w.pkgname)));
    let d2 = d1.assign(Field::Pkgver, Some(decode_utf8(w.pkgver)));
    let d3 = d2.assign(Field::Pkgrel, decode_opt(w.pkgrel));
    let d4 = d3.assign(Field::Epoch, decode_opt(w.epoch));
    let d5 = d4.assign(Field::Pkgdesc, decode_opt(w.pkgdesc));
    let d6 = d5.assign(Field::Url, decode_opt(w.url));
    let d7 = d6.extend(Field::License, decode_all(w.license));
    let d8 = d7.extend(Field::Source, decode_all(w.source));
    let d9 = d8.extend(Field::Makedepends, decode_all(w.makedepends));
    let d10 = d9.define(Field::Package, decode_utf8(w.package));
    let d11 = d10.define(Field::Build, decode_utf8(w.build));
    let d12 = d11.define(Field::Prepare, decode_utf8(w.prepare));
    lemma_assignment_line(Field::Pkgname, w.pkgname, l11, e);
    lemma_assignment_line(Field::Pkgver, w.pkgver, l10, d1);
    lemma_optional_line(Field::Pkgrel, w.pkgrel, l9, d2);
    lemma_optional_line(Field::Epoch, w.epoch, l8, d3);
    lemma_optional_line(Field::Pkgdesc, w.pkgdesc, l7, d4);
    lemma_optional_line(Field::Url, w.url, l6, d5);
    lemma_list_line(Field::License, w.license, l5, d6);
    lemma_list_line(Field::Source, w.source, l4, d7);
    lemma_list_line(Field::Makedepends, w.makedepends, l3, d8);
    lemma_function_text(Field::Package, w.package, l2, d9);
    lemma_function_text(Field::Build, w.build, l1, d10);
    lemma_function_text(Field::Prepare, w.prepare, seq![], d11);
    assert(l1 + seq![] =~= l1);
    assert(entries(seq![], 0, d12) == Ok::<DraftV, Failure>(d12));
    assert(seq![] + decode_all(w.license) =~= decode_all(w.license));
    assert(seq![] + decode_all(w.source) =~= decode_all(w.source));
    assert(seq![] + decode_all(w.makedepends) =~= decode_all(w.makedepends));
}

} // verus!
