use pkgmk::error::Error;
use pkgmk::grammar::Field;
use pkgmk::pkgbuild::PkgBuild;
use pkgmk::reader::Reader;

const BASIC: &str = "# A manifest\n\
pkgname=hello\n\
pkgver=1.2\n\
pkgrel=3\n\
pkgdesc=\"The $pkgname tool\"\n\
url='https://example.org/$pkgname'\n\
license=(MIT 'Apache 2.0')\n\
source=(\"https://example.org/$pkgname-$pkgver.tar.gz\")\n\
makedepends=(cc # the compiler\n  make)\n\
prepare() {\n  cd $pkgname\n}\n\
build() {\n  make\n}\n\
package() {\n  if true; then { echo $pkgver; }; fi\n}\n";

#[test]
fn parses_a_whole_manifest() {
    let p = PkgBuild::parse(BASIC.as_bytes()).unwrap();
    assert_eq!(p.pkgname, "hello");
    assert_eq!(p.pkgver, "1.2");
    assert_eq!(p.pkgrel.as_deref(), Some("3"));
    assert_eq!(p.epoch, None);
    assert_eq!(p.pkgdesc.as_deref(), Some("The hello tool"));
    assert_eq!(p.url.as_deref(), Some("https://example.org/hello"));
    assert_eq!(p.license, vec!["MIT".to_string(), "Apache 2.0".to_string()]);
    assert_eq!(p.source, vec!["https://example.org/hello-1.2.tar.gz".to_string()]);
    assert_eq!(p.makedepends, vec!["cc".to_string(), "make".to_string()]);
    assert_eq!(p.prepare.0, "cd hello\n");
    assert_eq!(p.build.0, "make\n");
    assert_eq!(p.package.0, "if true; then { echo 1.2; }; fi\n");
}

fn minimal(extra: &str) -> String {
    format!("pkgname=a\npkgver=1\n{extra}\npackage() {{ }}\nbuild() {{ }}\nprepare() {{ }}\n")
}

#[test]
fn missing_required_fields_in_order() {
    let r = PkgBuild::parse(b"pkgver=1\n");
    assert_eq!(r.unwrap_err(), Error::MissingField(Field::Pkgname));
    let r = PkgBuild::parse(b"pkgname=a\n");
    assert_eq!(r.unwrap_err(), Error::MissingField(Field::Pkgver));
    let r = PkgBuild::parse(b"pkgname=a\npkgver=1\nbuild() { }\n");
    assert_eq!(r.unwrap_err(), Error::MissingField(Field::Package));
    let r = PkgBuild::parse(b"pkgname=a\npkgver=1\npackage() { }\n");
    assert_eq!(r.unwrap_err(), Error::MissingField(Field::Build));
    let r = PkgBuild::parse(b"pkgname=a\npkgver=1\npackage() { }\nbuild() { }\n");
    assert_eq!(r.unwrap_err(), Error::MissingField(Field::Prepare));
}

#[test]
fn unknown_field_and_script() {
    let r = PkgBuild::parse(minimal("arch=x86").as_bytes());
    assert_eq!(r.unwrap_err(), Error::UnknownField("arch".to_string()));
    let r = PkgBuild::parse(minimal("check() { true }").as_bytes());
    assert_eq!(r.unwrap_err(), Error::UnknownScript("check".to_string()));
    // A script name used as an assignment is an unknown field.
    let r = PkgBuild::parse(minimal("build=x").as_bytes());
    assert_eq!(r.unwrap_err(), Error::UnknownField("build".to_string()));
    // A single-valued field written as a function is an unknown script.
    let r = PkgBuild::parse(minimal("url() { }").as_bytes());
    assert_eq!(r.unwrap_err(), Error::UnknownScript("url".to_string()));
}

#[test]
fn unexpected_bytes_and_end() {
    assert_eq!(PkgBuild::parse(b"pkgname x").unwrap_err(), Error::UnexpectedByte(b'x'));
    assert_eq!(PkgBuild::parse(b"pkgname").unwrap_err(), Error::UnexpectedEof);
    assert_eq!(PkgBuild::parse(b"pkgname   \n").unwrap_err(), Error::UnexpectedEof);
    assert_eq!(PkgBuild::parse(b"build(").unwrap_err(), Error::UnexpectedEof);
    assert_eq!(PkgBuild::parse(b"build(x").unwrap_err(), Error::UnexpectedByte(b'x'));
    assert_eq!(PkgBuild::parse(b"build() x").unwrap_err(), Error::UnexpectedByte(b'x'));
    assert_eq!(PkgBuild::parse(b"build()  ").unwrap_err(), Error::UnexpectedEof);
    assert_eq!(PkgBuild::parse(b"license=x").unwrap_err(), Error::UnexpectedByte(b'x'));
    assert_eq!(PkgBuild::parse(b"license=  ").unwrap_err(), Error::UnexpectedEof);
}

#[test]
fn invalid_utf8_is_refused() {
    fn position(r: Result<PkgBuild, Error>) -> (usize, Option<usize>) {
        match r {
            Err(Error::ExpectedUtf8(e)) => (e.valid_up_to(), e.error_len()),
            other => panic!("expected a UTF-8 error, got {other:?}"),
        }
    }
    let mut bytes = b"pkgname=a\xff\n".to_vec();
    assert_eq!(position(PkgBuild::parse(&bytes)), (1, Some(1)));
    bytes = b"source=(ok \xc3)\n".to_vec();
    assert_eq!(position(PkgBuild::parse(&bytes)), (0, None));
    bytes = b"build() { \xe2\x82 }\n".to_vec();
    assert_eq!(position(PkgBuild::parse(&bytes)), (0, Some(2)));
    match PkgBuild::parse(b"pkgname=ab\xffc\n") {
        Err(Error::ExpectedUtf8(e)) => {
            assert_eq!(e.to_string(), "invalid utf-8 sequence of 1 bytes from index 2")
        },
        other => panic!("expected a UTF-8 error, got {other:?}"),
    }
}

#[test]
fn utf8_text_is_kept() {
    let p = PkgBuild::parse(minimal("pkgdesc=\"caf\u{e9} \u{2603}\"").as_bytes()).unwrap();
    assert_eq!(p.pkgdesc.as_deref(), Some("caf\u{e9} \u{2603}"));
}

#[test]
fn later_assignments_win_and_lists_accumulate() {
    let p = PkgBuild::parse(minimal("pkgrel=1\npkgrel=2\nsource=(a)\nsource=(b c)").as_bytes()).unwrap();
    assert_eq!(p.pkgrel.as_deref(), Some("2"));
    assert_eq!(p.source, vec!["a".to_string(), "b".to_string(), "c".to_string()]);
}

#[test]
fn empty_value_unsets_a_field() {
    let p = PkgBuild::parse(minimal("epoch=2\nepoch=\n").as_bytes()).unwrap();
    assert_eq!(p.epoch, None);
    let p = PkgBuild::parse(minimal("epoch=   \n").as_bytes()).unwrap();
    assert_eq!(p.epoch, None);
}

#[test]
fn carriage_returns_are_dropped() {
    let text = "pkgname=a\r\npkgver=\"1\r\"\r\nsource=('x\r' y\r)\r\npackage() { }\r\nbuild() { }\r\nprepare() { }\r\n";
    let p = PkgBuild::parse(text.as_bytes()).unwrap();
    assert_eq!(p.pkgname, "a");
    assert_eq!(p.pkgver, "1");
    assert_eq!(p.source, vec!["x".to_string(), "y".to_string()]);
}

#[test]
fn unquoted_values_run_to_the_end_of_the_line() {
    let p = PkgBuild::parse(minimal("pkgdesc=  a b  # c").as_bytes()).unwrap();
    assert_eq!(p.pkgdesc.as_deref(), Some("a b  # c"));
}

#[test]
fn unterminated_quote_runs_to_the_end() {
    let p = PkgBuild::parse(b"package() { }\nbuild() { }\nprepare() { }\npkgname=a\npkgver=\"1 2").unwrap();
    assert_eq!(p.pkgver, "1 2");
}

#[test]
fn spaces_around_the_equals_sign() {
    let p = PkgBuild::parse(minimal("url   =   x").as_bytes()).unwrap();
    assert_eq!(p.url.as_deref(), Some("x"));
}

#[test]
fn reading_stops_at_a_line_that_starts_no_entry() {
    let p = PkgBuild::parse(minimal("").as_bytes()).unwrap();
    assert_eq!(p.pkgname, "a");
    let text = format!("{}1 anything at all =(\n", minimal(""));
    let p = PkgBuild::parse(text.as_bytes()).unwrap();
    assert_eq!(p.pkgname, "a");
    // Nothing after the stop is read.
    let text = "pkgname=a\npkgver=1\npackage() { }\nbuild() { }\nprepare() { }\n-\npkgname=b\n";
    assert_eq!(PkgBuild::parse(text.as_bytes()).unwrap().pkgname, "a");
}

#[test]
fn nested_braces_stay_in_the_body() {
    let p = PkgBuild::parse(minimal("").replace("build() { }", "build() {\n f() { echo {x}; }\n}").as_bytes()).unwrap();
    assert_eq!(p.build.0, "f() { echo {x}; }\n");
}

#[test]
fn unclosed_body_runs_to_the_end() {
    let p = PkgBuild::parse(b"pkgname=a\npkgver=1\npackage() { }\nbuild() { }\nprepare() {\n make {").unwrap();
    assert_eq!(p.prepare.0, "make {");
}

#[test]
fn references_expand_to_the_values_before_expansion() {
    let p = PkgBuild::parse(minimal("pkgrel=$pkgver-$epoch-$url\nurl=$pkgname\nepoch=$pkgrel").as_bytes()).unwrap();
    assert_eq!(p.pkgrel.as_deref(), Some("1-$pkgrel-$pkgname"));
    assert_eq!(p.url.as_deref(), Some("a"));
    assert_eq!(p.epoch.as_deref(), Some("$pkgver-$epoch-$url"));
}

#[test]
fn unknown_references_and_lone_dollars_stay() {
    let p = PkgBuild::parse(minimal("pkgdesc=$ $pkg $pkgnames $srcdir").as_bytes()).unwrap();
    assert_eq!(p.pkgdesc.as_deref(), Some("$ $pkg as $srcdir"));
}

#[test]
fn list_items_in_detail() {
    let p = PkgBuild::parse(minimal("license=(\"a b\"'c d'e)").as_bytes()).unwrap();
    assert_eq!(p.license, vec!["a b".to_string(), "c d".to_string(), "e".to_string()]);
    let p = PkgBuild::parse(minimal("license=(a\n# all of this\n  b) ").as_bytes()).unwrap();
    assert_eq!(p.license, vec!["a".to_string(), "b".to_string()]);
    let p = PkgBuild::parse(minimal("license=()").as_bytes()).unwrap();
    assert!(p.license.is_empty());
    let p = PkgBuild::parse(minimal("license=('' x)").as_bytes()).unwrap();
    assert_eq!(p.license, vec!["".to_string(), "x".to_string()]);
}

#[test]
fn list_without_closing_parenthesis_ends_at_the_end() {
    let p = PkgBuild::parse(b"pkgname=a\npkgver=1\npackage() { }\nbuild() { }\nprepare() { }\nsource=(a b").unwrap();
    assert_eq!(p.source, vec!["a".to_string(), "b".to_string()]);
}

#[test]
fn field_names() {
    assert_eq!(Field::Pkgname.as_str(), "pkgname");
    assert_eq!(Field::Makedepends.as_str(), "makedepends");
    assert_eq!(Field::Prepare.as_str(), "prepare");
    assert_eq!(Field::Url.name(), b"url".to_vec());
    assert_eq!(pkgmk::pkgbuild::lookup(b"source"), Some(Field::Source));
    assert_eq!(pkgmk::pkgbuild::lookup(b"sources"), None);
}

#[test]
fn leading_blank_space_and_comments_change_nothing() {
    let plain = PkgBuild::parse(BASIC.as_bytes()).unwrap();
    let text = format!(" \t\r\n\n# first comment\n   # second\n{BASIC}");
    let padded = PkgBuild::parse(text.as_bytes()).unwrap();
    assert_eq!(padded.pkgname, plain.pkgname);
    assert_eq!(padded.source, plain.source);
    assert_eq!(padded.package.0, plain.package.0);
}

#[test]
fn values_read_back_as_written() {
    let p = PkgBuild::parse(minimal("pkgdesc=a \"b\" 'c' d\nurl=\"x # 'y' = z\"\nepoch='\"q\"'").as_bytes()).unwrap();
    assert_eq!(p.pkgdesc.as_deref(), Some("a \"b\" 'c' d"));
    assert_eq!(p.url.as_deref(), Some("x # 'y' = z"));
    assert_eq!(p.epoch.as_deref(), Some("\"q\""));
}

#[test]
fn a_written_manifest_reads_back() {
    let text = "pkgname=tool\npkgver=2.0\nurl=https://x.org/$pkgname\nlicense=(\"MIT\" \"BSD 3\" )source=(\"s1\" )makedepends=()package() {install -D tool\n}build() {make\n}prepare() {cd src\n}";
    let p = PkgBuild::parse(text.as_bytes()).unwrap();
    assert_eq!(p.pkgname, "tool");
    assert_eq!(p.pkgver, "2.0");
    assert_eq!(p.pkgrel, None);
    assert_eq!(p.url.as_deref(), Some("https://x.org/tool"));
    assert_eq!(p.license, vec!["MIT".to_string(), "BSD 3".to_string()]);
    assert_eq!(p.source, vec!["s1".to_string()]);
    assert!(p.makedepends.is_empty());
    assert_eq!(p.package.0, "install -D tool\n");
    assert_eq!(p.build.0, "make\n");
    assert_eq!(p.prepare.0, "cd src\n");
}

#[test]
fn list_field_refusals_keep_what_was_read() {
    let mut r = Reader::new(b"  x(a)");
    let mut value: Vec<String> = vec!["z".to_string()];
    assert_eq!(PkgBuild::parse_list_field(&mut r, &mut value), Err(Error::UnexpectedByte(b'x')));
    assert_eq!(value, vec!["z".to_string()]);
    assert_eq!(r.peek_byte(), Some(b'('));

    let mut r = Reader::new(b"(ok \xff) rest");
    let mut value: Vec<String> = vec!["z".to_string()];
    assert!(matches!(PkgBuild::parse_list_field(&mut r, &mut value), Err(Error::ExpectedUtf8(_))));
    assert_eq!(value, vec!["z".to_string(), "ok".to_string()]);
    assert_eq!(r.peek_byte(), Some(b')'));

    let mut r = Reader::new(b"(a b)c");
    let mut value: Vec<String> = vec!["z".to_string()];
    assert_eq!(PkgBuild::parse_list_field(&mut r, &mut value), Ok(()));
    assert_eq!(value, vec!["z".to_string(), "a".to_string(), "b".to_string()]);
    assert_eq!(r.peek_byte(), Some(b'c'));
}
