//! Reading a manifest into its fields.
use vstd::prelude::*;
use vstd::utf8::{
    decode_utf8, is_leading_byte_width_1, partial_valid_utf8_extend_ascii_block, valid_utf8,
};
use crate::error::{Error, Failure};
use crate::expand::{
    expand_all, expanded, lemma_reference_names_well_formed, or_empty, reference_names,
    reference_values, references_well_formed, subst, texts, Substituter,
};
use crate::grammar::{
    all_valid, assemble, bad_item_end, lemma_leading_valid_append, leading_valid, assignment_step, decode_all, entries, entry_step, field_of,
    function_step, lemma_entry_progress, list_field, list_item, list_items, scan, script_body,
    str_field, strip_cr, DraftV, Field, PkgBuildV, Step, CR, DQUOTE, EQUALS, HASH, LBRACE, LF,
    LPAREN, RBRACE, RPAREN, SQUOTE,
};
use crate::reader::{is_alpha, lemma_span, span, BytePred, Reader};

verus! {

/// The body of a shell function of the manifest.
#[derive(Debug)]
pub struct Script(pub String);

impl View for Script {
    type V = Seq<char>;

    open spec fn view(&self) -> Seq<char> {
        self.0@
    }
}

/// The text of an optional string.
pub open spec fn opt_view(o: Option<String>) -> Option<Seq<char>> {
    match o {
        Some(s) => Some(s@),
        None => None,
    }
}

/// The texts of a sequence of strings.
pub open spec fn strings_view(v: Seq<String>) -> Seq<Seq<char>> {
    v.map_values(|x: String| x@)
}

/// The fields read so far from a manifest.
pub struct Draft {
    pub pkgname: Option<String>,
    pub pkgver: Option<String>,
    pub pkgrel: Option<String>,
    pub epoch: Option<String>,
    pub pkgdesc: Option<String>,
    pub url: Option<String>,
    pub license: Vec<String>,
    pub source: Vec<String>,
    pub makedepends: Vec<String>,
    pub package: Option<String>,
    pub build: Option<String>,
    pub prepare: Option<String>,
}

impl View for Draft {
    type V = DraftV;

    open spec fn view(&self) -> DraftV {
        DraftV {
            pkgname: opt_view(self.pkgname),
            pkgver: opt_view(self.pkgver),
            pkgrel: opt_view(self.pkgrel),
            epoch: opt_view(self.epoch),
            pkgdesc: opt_view(self.pkgdesc),
            url: opt_view(self.url),
            package: opt_view(self.package),
            build: opt_view(self.build),
            prepare: opt_view(self.prepare),
            license: strings_view(self.license@),
            source: strings_view(self.source@),
            makedepends: strings_view(self.makedepends@),
        }
    }
}

impl Draft {
    /// No field read yet.
    pub fn new() -> (r: Draft)
        ensures
            r@ == DraftV::empty(),
    {
        let r = Draft {
            pkgname: None,
            pkgver: None,
            pkgrel: None,
            epoch: None,
            pkgdesc: None,
            url: None,
            package: None,
            build: None,
            prepare: None,
            license: Vec::new(),
            source: Vec::new(),
            makedepends: Vec::new(),
        };
        assert(r@.license =~= seq![]);
        assert(r@.source =~= seq![]);
        assert(r@.makedepends =~= seq![]);
        r
    }
}

/// Drops one trailing carriage return from `buf`.
fn pop_cr(buf: &mut Vec<u8>)
    ensures
        final(buf)@ == strip_cr(old(buf)@),
{
    if buf.len() > 0 && buf[buf.len() - 1] == CR {
        let _ = buf.pop();
    }
}

impl PkgBuild {
    /// Reads a single-valued field after its `=` into `value`: a value sets it,
    /// an empty line unsets it.
    pub fn parse_str_field(reader: &mut Reader, value: &mut Option<String>) -> (r: Result<(), Error>)
        requires
            old(reader).wf(),
        ensures
            final(reader).wf(),
            final(reader).input() == old(reader).input(),
            ({
                let (e, out) = str_field(old(reader).input(), old(reader).position());
                &&& final(reader).position() == e
                &&& match out {
                    None => r is Ok && *final(value) == None::<String>,
                    Some(b) => if valid_utf8(b) {
                        r is Ok && opt_view(*final(value)) == Some(decode_utf8(b))
                    } else {
                        r matches Err(Error::ExpectedUtf8(_)) && *final(value) == *old(value)
                    },
                }
            }),
    {
        let ghost s = reader.input();
        let ghost i = reader.position();
        let mut buf: Vec<u8> = Vec::new();
        reader.skip_while(BytePred::InlineWhitespace);
        let ghost j = reader.position();
        proof { lemma_span(s, i, BytePred::InlineWhitespace); }
        match reader.peek_byte() {
            Some(q) => {
                if q == DQUOTE || q == SQUOTE {
                    let _ = reader.read_byte();
                    proof { lemma_span(s, j + 1, BytePred::Not(q)); }
                    reader.read_while(&mut buf, BytePred::Not(q));
                    let _ = reader.read_byte();
                } else if q == LF {
                    let _ = reader.read_byte();
                    *value = None;
                    return Ok(());
                } else {
                    proof { lemma_span(s, j, BytePred::Not(LF)); }
                    reader.read_while(&mut buf, BytePred::Not(LF));
                }
            },
            None => {
                proof { lemma_span(s, j, BytePred::Not(LF)); }
                reader.read_while(&mut buf, BytePred::Not(LF));
            },
        }
        pop_cr(&mut buf);
        match String::from_utf8(buf) {
            Ok(v) => {
                *value = Some(v);
                Ok(())
            },
            Err(e) => Err(Error::ExpectedUtf8(e.utf8_error())),
        }
    }

    /// Reads a list field after its `=` and appends its items to `value`.
    pub fn parse_list_field(reader: &mut Reader, value: &mut Vec<String>) -> (r: Result<(), Error>)
        requires
            old(reader).wf(),
        ensures
            final(reader).wf(),
            final(reader).input() == old(reader).input(),
            ({
                let s = old(reader).input();
                let j = span(s, old(reader).position(), BytePred::Whitespace);
                match list_field(s, old(reader).position()) {
                    Err(f) => {
                        &&& r matches Err(x) && x@ == f
                        &&& final(value)@ == old(value)@
                        &&& final(reader).position() == if j < s.len() { j + 1 } else { j }
                    },
                    Ok((e, items)) => if all_valid(items) {
                        &&& r is Ok
                        &&& final(reader).position() == e
                        &&& strings_view(final(value)@) == strings_view(old(value)@) + decode_all(items)
                    } else {
                        &&& r matches Err(Error::ExpectedUtf8(_))
                        &&& final(reader).position() == bad_item_end(s, span(s, j + 1, BytePred::Whitespace))
                        &&& strings_view(final(value)@) == strings_view(old(value)@) + decode_all(
                            items.take(leading_valid(items) as int),
                        )
                    },
                }
            }),
    {
        let ghost s = reader.input();
        let ghost i = reader.position();
        proof { lemma_span(s, i, BytePred::Whitespace); }
        reader.skip_while(BytePred::Whitespace);
        match reader.expect_byte(LPAREN) {
            Err(e) => return Err(e),
            Ok(()) => {},
        }
        proof { lemma_span(s, reader.position(), BytePred::Whitespace); }
        reader.skip_while(BytePred::Whitespace);
        let ghost k0 = reader.position();
        let ghost mut done: Seq<Seq<u8>> = seq![];
        assert(strings_view(value@) =~= strings_view(old(value)@) + decode_all(done));
        loop
            invariant_except_break
                list_items(s, k0) == (list_items(s, reader.position()).0, done + list_items(s, reader.position()).1),
                bad_item_end(s, k0) == bad_item_end(s, reader.position()),
            invariant
                reader.wf(),
                reader.input() == s,
                s == old(reader).input(),
                i == old(reader).position(),
                list_field(s, i) == Ok::<(int, Seq<Seq<u8>>), Failure>(list_items(s, k0)),
                k0 == span(s, span(s, i, BytePred::Whitespace) + 1, BytePred::Whitespace),
                all_valid(done),
                strings_view(value@) == strings_view(old(value)@) + decode_all(done),
            ensures
                list_items(s, k0) == (reader.position(), done),
            decreases s.len() - reader.position(),
        {
            let ghost k = reader.position();
            match reader.peek_byte() {
                None => {
                    assert(done + seq![] =~= done);
                    break;
                },
                Some(b) => {
                    if b == HASH {
                        proof {
                            lemma_span(s, k, BytePred::Not(LF));
                            lemma_span(s, span(s, k, BytePred::Not(LF)), BytePred::Whitespace);
                        }
                        reader.skip_while(BytePred::Not(LF));
                        reader.skip_while(BytePred::Whitespace);
                    } else if b == RPAREN {
                        let _ = reader.read_byte();
                        assert(done + seq![] =~= done);
                        break;
                    } else {
                        let mut buf: Vec<u8> = Vec::new();
                        if b == DQUOTE || b == SQUOTE {
                            let _ = reader.read_byte();
                            proof { lemma_span(s, k + 1, BytePred::Not(b)); }
                            reader.read_while(&mut buf, BytePred::Not(b));
                            let _ = reader.read_byte();
                        } else {
                            proof { lemma_span(s, k, BytePred::ListWord); }
                            reader.read_while(&mut buf, BytePred::ListWord);
                        }
                        pop_cr(&mut buf);
                        let ghost item = buf@;
                        let ghost e = reader.position();
                        assert(list_item(s, k) == (e, item));
                        proof {
                            lemma_span(s, e, BytePred::Whitespace);
                        }
                        assert(k < span(s, e, BytePred::Whitespace));
                        assert(list_items(s, k) == (list_items(s, span(s, e, BytePred::Whitespace)).0,
                            seq![item] + list_items(s, span(s, e, BytePred::Whitespace)).1));
                        match String::from_utf8(buf) {
                            Ok(v) => {
                                let ghost old_value = value@;
                                value.push(v);
                                proof {
                                    assert(strings_view(value@) =~= strings_view(old_value).push(v@));
                                    assert(decode_all(done.push(item)) =~= decode_all(done).push(decode_utf8(item)));
                                    assert(done + (seq![item] + list_items(s, span(s, e, BytePred::Whitespace)).1)
                                        =~= done.push(item) + list_items(s, span(s, e, BytePred::Whitespace)).1);
                                    done = done.push(item);
                                }
                                reader.skip_while(BytePred::Whitespace);
                            },
                            Err(err) => {
                                proof {
                                    let all = list_items(s, k0).1;
                                    let later = seq![item] + list_items(s, span(s, e, BytePred::Whitespace)).1;
                                    assert(all == done + later);
                                    assert(all[done.len() as int] == item);
                                    assert(later[0] == item);
                                    assert(leading_valid(later) == 0);
                                    lemma_leading_valid_append(done, later);
                                    assert(all.take(done.len() as int) =~= done);
                                    assert(bad_item_end(s, k) == e);
                                }
                                return Err(Error::ExpectedUtf8(err.utf8_error()));
                            },
                        }
                    }
                },
            }
        }
        Ok(())
    }
}

/// Reads a function body up to the `}` that closes it (consumed, not kept)
/// or to the end of the input, counting the braces nested inside.
pub fn read_script_body(reader: &mut Reader) -> (r: Vec<u8>)
    requires
        old(reader).wf(),
    ensures
        final(reader).wf(),
        final(reader).input() == old(reader).input(),
        (final(reader).position(), r@) == script_body(old(reader).input(), old(reader).position(), 0),
{
    let ghost s = reader.input();
    let ghost i = reader.position();
    let mut count: usize = 0;
    let mut buf: Vec<u8> = Vec::new();
    assert(buf@ + script_body(s, i, 0).1 =~= script_body(s, i, 0).1);
    loop
        invariant_except_break
            script_body(s, i, 0) == (script_body(s, reader.position(), count as nat).0,
                buf@ + script_body(s, reader.position(), count as nat).1),
            count <= reader.position() - i,
        invariant
            reader.wf(),
            reader.input() == s,
            s.len() <= usize::MAX,
            0 <= i <= reader.position(),
        ensures
            script_body(s, i, 0) == (reader.position(), buf@),
        decreases s.len() - reader.position(),
    {
        let ghost p = reader.position();
        match reader.read_byte() {
            None => {
                assert(buf@ + seq![] =~= buf@);
                break;
            },
            Some(b) => {
                if b == RBRACE && count == 0 {
                    assert(buf@ + seq![] =~= buf@);
                    break;
                }
                let ghost old_buf = buf@;
                buf.push(b);
                if b == LBRACE {
                    count = count + 1;
                } else if b == RBRACE {
                    count = count - 1;
                }
                assert(old_buf + (seq![b] + script_body(s, reader.position(), count as nat).1)
                    =~= buf@ + script_body(s, reader.position(), count as nat).1);
            },
        }
    }
    buf
}

/// Whether `a` and `b` hold the same bytes.
fn bytes_eq(a: &[u8], b: &[u8]) -> (r: bool)
    ensures
        r == (a@ == b@),
{
    if a.len() != b.len() {
        return false;
    }
    let mut i: usize = 0;
    while i < a.len()
        invariant
            a@.len() == b@.len(),
            0 <= i <= a@.len(),
            forall|j: int| 0 <= j < i ==> a@[j] == b@[j],
        decreases a@.len() - i,
    {
        if a[i] != b[i] {
            return false;
        }
        i = i + 1;
    }
    assert(a@ =~= b@);
    true
}

/// The field that `key` names, if any.
pub fn lookup(key: &[u8]) -> (r: Option<Field>)
    ensures
        r == field_of(key@),
{
    if bytes_eq(key, Field::Pkgname.name().as_slice()) {
        return Some(Field::Pkgname);
    }
    if bytes_eq(key, Field::Pkgver.name().as_slice()) {
        return Some(Field::Pkgver);
    }
    if bytes_eq(key, Field::Pkgrel.name().as_slice()) {
        return Some(Field::Pkgrel);
    }
    if bytes_eq(key, Field::Epoch.name().as_slice()) {
        return Some(Field::Epoch);
    }
    if bytes_eq(key, Field::Pkgdesc.name().as_slice()) {
        return Some(Field::Pkgdesc);
    }
    if bytes_eq(key, Field::Url.name().as_slice()) {
        return Some(Field::Url);
    }
    if bytes_eq(key, Field::License.name().as_slice()) {
        return Some(Field::License);
    }
    if bytes_eq(key, Field::Source.name().as_slice()) {
        return Some(Field::Source);
    }
    if bytes_eq(key, Field::Makedepends.name().as_slice()) {
        return Some(Field::Makedepends);
    }
    if bytes_eq(key, Field::Package.name().as_slice()) {
        return Some(Field::Package);
    }
    if bytes_eq(key, Field::Build.name().as_slice()) {
        return Some(Field::Build);
    }
    if bytes_eq(key, Field::Prepare.name().as_slice()) {
        return Some(Field::Prepare);
    }
    None
}

/// The text of a key, which is made of ASCII letters.
fn key_text(key: Vec<u8>) -> (r: String)
    requires
        forall|j: int| 0 <= j < key@.len() ==> is_alpha(#[trigger] key@[j]),
    ensures
        r@ == decode_utf8(key@),
{
    proof {
        let b = key@;
        assert(b.subrange(0, 0) =~= Seq::<u8>::empty());
        assert(valid_utf8(b.subrange(0, 0)));
        assert forall|j: int| 0 <= 0 <= j < b.len() <= b.len() implies #[trigger] is_leading_byte_width_1(b[j]) by {
            assert(is_alpha(b[j]));
        }
        partial_valid_utf8_extend_ascii_block(b, 0, b.len() as int);
        assert(b.subrange(0, b.len() as int) =~= b);
    }
    match String::from_utf8(key) {
        Ok(t) => t,
        Err(_) => {
            assert(false);
            String::new()
        },
    }
}

/// Reads the value of an assignment `key=...` from just after its `=`.
pub fn parse_assignment(reader: &mut Reader, key: Vec<u8>, draft: &mut Draft) -> (r: Result<bool, Error>)
    requires
        old(reader).wf(),
        forall|j: int| 0 <= j < key@.len() ==> is_alpha(#[trigger] key@[j]),
    ensures
        final(reader).wf(),
        final(reader).input() == old(reader).input(),
        match assignment_step(old(reader).input(), old(reader).position(), key@, old(draft)@) {
            Step::Done => false,
            Step::Fail(f) => r matches Err(x) && x@ == f,
            Step::Next(e, d2) => r == Ok::<bool, Error>(true) && final(reader).position() == e && final(draft)@ == d2,
        },
{
    match lookup(key.as_slice()) {
        Some(f) => {
            let res = match f {
                Field::Pkgname => PkgBuild::parse_str_field(reader, &mut draft.pkgname),
                Field::Pkgver => PkgBuild::parse_str_field(reader, &mut draft.pkgver),
                Field::Pkgrel => PkgBuild::parse_str_field(reader, &mut draft.pkgrel),
                Field::Epoch => PkgBuild::parse_str_field(reader, &mut draft.epoch),
                Field::Pkgdesc => PkgBuild::parse_str_field(reader, &mut draft.pkgdesc),
                Field::Url => PkgBuild::parse_str_field(reader, &mut draft.url),
                Field::License => PkgBuild::parse_list_field(reader, &mut draft.license),
                Field::Source => PkgBuild::parse_list_field(reader, &mut draft.source),
                Field::Makedepends => PkgBuild::parse_list_field(reader, &mut draft.makedepends),
                _ => return Err(Error::UnknownField(key_text(key))),
            };
            match res {
                Ok(()) => Ok(true),
                Err(e) => Err(e),
            }
        },
        None => Err(Error::UnknownField(key_text(key))),
    }
}

/// Reads a function `key() { ... }` from just after its `(`.
pub fn parse_function(reader: &mut Reader, key: Vec<u8>, draft: &mut Draft) -> (r: Result<bool, Error>)
    requires
        old(reader).wf(),
        forall|j: int| 0 <= j < key@.len() ==> is_alpha(#[trigger] key@[j]),
    ensures
        final(reader).wf(),
        final(reader).input() == old(reader).input(),
        match function_step(old(reader).input(), old(reader).position(), key@, old(draft)@) {
            Step::Done => false,
            Step::Fail(f) => r matches Err(x) && x@ == f,
            Step::Next(e, d2) => r == Ok::<bool, Error>(true) && final(reader).position() == e && final(draft)@ == d2,
        },
{
    let ghost s = reader.input();
    match reader.expect_byte(RPAREN) {
        Err(e) => return Err(e),
        Ok(()) => {},
    }
    proof { lemma_span(s, reader.position(), BytePred::Whitespace); }
    reader.skip_while(BytePred::Whitespace);
    match reader.expect_byte(LBRACE) {
        Err(e) => return Err(e),
        Ok(()) => {},
    }
    proof { lemma_span(s, reader.position(), BytePred::Whitespace); }
    reader.skip_while(BytePred::Whitespace);
    let body = read_script_body(reader);
    let text = match String::from_utf8(body) {
        Ok(t) => t,
        Err(e) => return Err(Error::ExpectedUtf8(e.utf8_error())),
    };
    match lookup(key.as_slice()) {
        Some(f) => match f {
            Field::Package => draft.package = Some(text),
            Field::Build => draft.build = Some(text),
            Field::Prepare => draft.prepare = Some(text),
            _ => return Err(Error::UnknownScript(key_text(key))),
        },
        None => return Err(Error::UnknownScript(key_text(key))),
    }
    Ok(true)
}

/// Reads the entry at the cursor: `Ok(true)` when one was read, `Ok(false)`
/// when reading ends.
pub fn parse_entry(reader: &mut Reader, draft: &mut Draft) -> (r: Result<bool, Error>)
    requires
        old(reader).wf(),
    ensures
        final(reader).wf(),
        final(reader).input() == old(reader).input(),
        match entry_step(old(reader).input(), old(reader).position(), old(draft)@) {
            Step::Done => r == Ok::<bool, Error>(false) && final(draft)@ == old(draft)@,
            Step::Fail(f) => r matches Err(x) && x@ == f,
            Step::Next(e, d2) => r == Ok::<bool, Error>(true) && final(reader).position() == e && final(draft)@ == d2,
        },
{
    let ghost s = reader.input();
    let ghost i = reader.position();
    proof { lemma_span(s, i, BytePred::Whitespace); }
    reader.skip_while(BytePred::Whitespace);
    let ghost j = reader.position();
    proof { lemma_span(s, j, BytePred::Alphabetic); }
    let mut key: Vec<u8> = Vec::new();
    reader.read_while(&mut key, BytePred::Alphabetic);
    let ghost k = reader.position();
    if key.len() == 0 {
        match reader.peek_byte() {
            Some(b) => if b == HASH {
                proof { lemma_span(s, j, BytePred::Not(LF)); }
                reader.skip_while(BytePred::Not(LF));
                let _ = reader.read_byte();
                return Ok(true);
            },
            None => {},
        }
        return Ok(false);
    }
    assert(key@ =~= s.subrange(j, k));
    assert forall|x: int| 0 <= x < key@.len() implies is_alpha(#[trigger] key@[x]) by {
        assert(key@[x] == s[j + x]);
        assert(BytePred::Alphabetic.holds(s[j + x]));
    }
    proof { lemma_span(s, k, BytePred::Whitespace); }
    reader.skip_while(BytePred::Whitespace);
    match reader.read_byte() {
        None => Err(Error::UnexpectedEof),
        Some(symbol) => if symbol == EQUALS {
            parse_assignment(reader, key, draft)
        } else if symbol == LPAREN {
            parse_function(reader, key, draft)
        } else {
            Err(Error::UnexpectedByte(symbol))
        },
    }
}

/// A parsed manifest.
#[derive(Debug)]
pub struct PkgBuild {
    pub pkgname: String,
    pub pkgver: String,
    pub pkgrel: Option<String>,
    pub epoch: Option<String>,
    pub pkgdesc: Option<String>,
    pub url: Option<String>,
    pub license: Vec<String>,
    pub source: Vec<String>,
    pub makedepends: Vec<String>,
    pub package: Script,
    pub build: Script,
    pub prepare: Script,
}

impl View for PkgBuild {
    type V = PkgBuildV;

    open spec fn view(&self) -> PkgBuildV {
        PkgBuildV {
            pkgname: self.pkgname@,
            pkgver: self.pkgver@,
            pkgrel: opt_view(self.pkgrel),
            epoch: opt_view(self.epoch),
            pkgdesc: opt_view(self.pkgdesc),
            url: opt_view(self.url),
            license: strings_view(self.license@),
            source: strings_view(self.source@),
            makedepends: strings_view(self.makedepends@),
            package: self.package@,
            build: self.build@,
            prepare: self.prepare@,
        }
    }
}

/// What the bytes `s` of a manifest make: its fields, with the references
/// in them expanded, or why the manifest is refused.
pub open spec fn parse_spec(s: Seq<u8>) -> Result<PkgBuildV, Failure> {
    match scan(s) {
        Ok(p) => Ok(expanded(p)),
        Err(f) => Err(f),
    }
}

/// The text of `o`, or an empty string.
fn text_or_empty(o: &Option<String>) -> (r: String)
    ensures
        r@ == or_empty(opt_view(*o)),
{
    match o {
        Some(t) => t.clone(),
        None => String::new(),
    }
}

/// `o` with its references expanded.
fn expand_option(sub: &Substituter, o: &Option<String>, members: &[String]) -> (r: Option<String>)
    requires
        references_well_formed(sub.patterns()),
        members@.len() == sub.patterns().len(),
    ensures
        opt_view(r) == (match opt_view(*o) {
            Some(t) => Some(subst(t, sub.patterns(), texts(members@))),
            None => None,
        }),
{
    match o {
        Some(t) => Some(sub.replace_all(t.as_str(), members)),
        None => None,
    }
}

/// The strings of `v` with their references expanded.
fn expand_vec(sub: &Substituter, v: &Vec<String>, members: &[String]) -> (r: Vec<String>)
    requires
        references_well_formed(sub.patterns()),
        members@.len() == sub.patterns().len(),
    ensures
        strings_view(r@) == strings_view(v@).map_values(|t: Seq<char>| subst(t, sub.patterns(), texts(members@))),
{
    let mut out: Vec<String> = Vec::new();
    let mut i: usize = 0;
    while i < v.len()
        invariant
            references_well_formed(sub.patterns()),
            members@.len() == sub.patterns().len(),
            0 <= i <= v@.len(),
            strings_view(out@) == strings_view(v@.take(i as int)).map_values(
                |t: Seq<char>| subst(t, sub.patterns(), texts(members@)),
            ),
        decreases v@.len() - i,
    {
        let ghost before = out@;
        out.push(sub.replace_all(v[i].as_str(), members));
        proof {
            assert(strings_view(out@) =~= strings_view(before).push(out@[i as int]@));
            assert(strings_view(v@.take(i + 1)) =~= strings_view(v@.take(i as int)).push(v@[i as int]@));
        }
        i = i + 1;
    }
    assert(v@.take(v@.len() as int) =~= v@);
    out
}

impl PkgBuild {
    /// Expands the references `$pkgname`, `$pkgver`, `$pkgrel`, `$epoch`,
    /// `$pkgdesc` and `$url` in every field, to the values that the fields
    /// hold before the call (an unset field stands for an empty string).
    pub fn fixup(&mut self)
        ensures
            final(self)@ == expanded(old(self)@),
    {
        proof { lemma_reference_names_well_formed(); }
        let patterns = vec!["$pkgname", "$pkgver", "$pkgrel", "$epoch", "$pkgdesc", "$url"];
        assert(patterns@.map_values(|p: &str| p@) =~= reference_names());
        let sub = Substituter::new(patterns.as_slice());
        let members = vec![
            self.pkgname.clone(),
            self.pkgver.clone(),
            text_or_empty(&self.pkgrel),
            text_or_empty(&self.epoch),
            text_or_empty(&self.pkgdesc),
            text_or_empty(&self.url),
        ];
        let ghost p = self@;
        assert(texts(members@) =~= reference_values(p));
        let m = members.as_slice();
        let pkgname = sub.replace_all(self.pkgname.as_str(), m);
        let pkgver = sub.replace_all(self.pkgver.as_str(), m);
        let pkgrel = expand_option(&sub, &self.pkgrel, m);
        let epoch = expand_option(&sub, &self.epoch, m);
        let pkgdesc = expand_option(&sub, &self.pkgdesc, m);
        let url = expand_option(&sub, &self.url, m);
        let license = expand_vec(&sub, &self.license, m);
        let source = expand_vec(&sub, &self.source, m);
        let makedepends = expand_vec(&sub, &self.makedepends, m);
        let package = sub.replace_all(self.package.0.as_str(), m);
        let build = sub.replace_all(self.build.0.as_str(), m);
        let prepare = sub.replace_all(self.prepare.0.as_str(), m);
        self.pkgname = pkgname;
        self.pkgver = pkgver;
        self.pkgrel = pkgrel;
        self.epoch = epoch;
        self.pkgdesc = pkgdesc;
        self.url = url;
        self.license = license;
        self.source = source;
        self.makedepends = makedepends;
        self.package = Script(package);
        self.build = Script(build);
        self.prepare = Script(prepare);
        proof {
            assert(self@.license =~= expand_all(p, p.license));
            assert(self@.source =~= expand_all(p, p.source));
            assert(self@.makedepends =~= expand_all(p, p.makedepends));
        }
    }

    /// Reads a manifest from its bytes: its fields, with the references in
    /// them expanded (see `fixup`), or why it is refused.
    pub fn parse(input: &[u8]) -> (r: Result<PkgBuild, Error>)
        ensures
            match parse_spec(input@) {
                Ok(p) => r matches Ok(q) && q@ == p,
                Err(f) => r matches Err(e) && e@ == f,
            },
    {
        let mut reader = Reader::new(input);
        let mut draft = Draft::new();
        let ghost s = input@;
        loop
            invariant_except_break
                entries(s, reader.position(), draft@) == entries(s, 0, DraftV::empty()),
            invariant
                reader.wf(),
                reader.input() == s,
                s == input@,
            ensures
                entries(s, 0, DraftV::empty()) == Ok::<DraftV, Failure>(draft@),
            decreases s.len() - reader.position(),
        {
            let ghost i = reader.position();
            let ghost d = draft@;
            proof { lemma_entry_progress(s, i, d); }
            match parse_entry(&mut reader, &mut draft) {
                Ok(true) => {},
                Ok(false) => break,
                Err(e) => {
                    assert(entries(s, i, d) == Err::<DraftV, Failure>(e@));
                    return Err(e);
                },
            }
        }
        let mut pkg = match Self::assemble(draft) {
            Ok(p) => p,
            Err(e) => return Err(e),
        };
        pkg.fixup();
        Ok(pkg)
    }

    /// The manifest that the fields read make up, or the first required one
    /// that is missing.
    fn assemble(draft: Draft) -> (r: Result<PkgBuild, Error>)
        ensures
            match assemble(draft@) {
                Ok(p) => r matches Ok(q) && q@ == p,
                Err(f) => r matches Err(e) && e@ == f,
            },
    {
        let Draft { pkgname, pkgver, pkgrel, epoch, pkgdesc, url, license, source, makedepends, package, build, prepare } = draft;
        let pkgname = match pkgname {
            Some(v) => v,
            None => return Err(Error::MissingField(Field::Pkgname)),
        };
        let pkgver = match pkgver {
            Some(v) => v,
            None => return Err(Error::MissingField(Field::Pkgver)),
        };
        let package = match package {
            Some(v) => v,
            None => return Err(Error::MissingField(Field::Package)),
        };
        let build = match build {
            Some(v) => v,
            None => return Err(Error::MissingField(Field::Build)),
        };
        let prepare = match prepare {
            Some(v) => v,
            None => return Err(Error::MissingField(Field::Prepare)),
        };
        Ok(PkgBuild {
            pkgname,
            pkgver,
            pkgrel,
            epoch,
            pkgdesc,
            url,
            license,
            source,
            makedepends,
            package: Script(package),
            build: Script(build),
            prepare: Script(prepare),
        })
    }
}

} // verus!
