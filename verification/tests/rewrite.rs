use std::cell::RefCell;

use fnaop::error::{AspectError, ErrorKind, Hook, Part};
use fnaop::Aspect;
use proc_macro2::TokenStream;

fn tokens(source: &str) -> TokenStream {
    source.parse::<TokenStream>().unwrap()
}

/// Source text as the token printer writes it. Punctuation that the rewrite
/// emits on its own is kept apart by a space in the expected texts below.
fn printed(source: &str) -> String {
    tokens(source).to_string()
}

fn expand(args: &str, input: &str) -> String {
    match Aspect(tokens(args), tokens(input)) {
        Ok(emitted) => emitted.to_string(),
        Err(error) => panic!("the rewrite failed: {:?}", error),
    }
}

fn failure(args: &str, input: &str) -> ErrorKind {
    match Aspect(tokens(args), tokens(input)) {
        Ok(emitted) => panic!("the rewrite emitted {}", emitted),
        Err(error) => error.kind(),
    }
}

// ---------------------------------------------------------------- no hooks

#[test]
fn no_hooks_keeps_unit_body() {
    assert_eq!(
        expand("", "pub fn f(x: i64) { work(x); }"),
        printed("pub fn f(x: i64) { { work(x); } }")
    );
}

#[test]
fn no_hooks_keeps_value() {
    assert_eq!(
        expand("", "pub fn f(x: i64) -> i64 { x + 1 }"),
        printed("pub fn f(x: i64) -> i64 { let result = (|| { { x + 1 } })(); result }")
    );
}

// ---------------------------------------------------------------- one hook

#[test]
fn only_after_emits_one_call() {
    let emitted = expand(r#"after = "done""#, "pub fn f(x: i64) { work(x); }");
    assert_eq!(emitted, printed("pub fn f(x: i64) { { work(x); } done(&x); }"));
    assert_eq!(emitted.matches("done").count(), 1);
}

#[test]
fn only_before_emits_one_call() {
    assert_eq!(
        expand(r#"before = "ready""#, "pub fn f(x: i64) -> i64 { x }"),
        printed("pub fn f(x: i64) -> i64 { ready(&x); let result = (|| { { x } })(); result }")
    );
}

// ---------------------------------------------------------------- arguments

#[test]
fn unrecognized_names_are_skipped() {
    assert_eq!(
        expand(
            r#"around = "not a path", before = "ready", flag, name(inner), "text""#,
            "pub fn f() {}"
        ),
        printed("pub fn f() { ready(); {} }")
    );
}

#[test]
fn value_that_is_no_string_is_skipped() {
    assert_eq!(expand("before = 1, after = true", "pub fn f() {}"), printed("pub fn f() { {} }"));
}

#[test]
fn name_that_is_no_single_identifier_is_skipped() {
    assert_eq!(
        expand(r#"hooks::before = "ready""#, "pub fn f() {}"),
        printed("pub fn f() { {} }")
    );
}

#[test]
fn later_occurrence_wins() {
    assert_eq!(
        expand(r#"before = "first", after = "done", before = "second""#, "pub fn f() {}"),
        printed("pub fn f() { second(); {} done(); }")
    );
}

#[test]
fn trailing_comma_is_accepted() {
    assert_eq!(expand(r#"before = "ready","#, "pub fn f() {}"), printed("pub fn f() { ready(); {} }"));
}

#[test]
fn reference_text_is_parsed_as_a_path() {
    assert_eq!(
        expand(r#"before = "::hooks::enter""#, "pub fn f() {}"),
        printed("pub fn f() { ::hooks::enter(); {} }")
    );
}

// ---------------------------------------------------------------- forwarding

#[test]
fn reference_parameters_are_forwarded_as_they_are() {
    assert_eq!(
        expand(
            r#"before = "ready", after = "done""#,
            "pub fn f(a: &i64, b: &mut String, c: i64, mut d: Vec<u8>) {}"
        ),
        printed(
            "pub fn f(a: &i64, b: &mut String, c: i64, mut d: Vec<u8>) {
                ready(a, b, &c, &d);
                {}
                done(a, b, &c, &d);
            }"
        )
    );
}

#[test]
fn parenthesized_reference_is_no_reference_type() {
    assert_eq!(
        expand(r#"before = "ready""#, "pub fn f(a: (&i64)) {}"),
        printed("pub fn f(a: (&i64)) { ready(&a); {} }")
    );
}

// ---------------------------------------------------------------- signature

#[test]
fn public_stays_public() {
    assert!(expand("", "pub fn f() {}").starts_with("pub fn f"));
}

#[test]
fn other_visibilities_become_crate_wide() {
    assert_eq!(expand("", "fn f() {}"), printed("pub(crate) fn f() { {} }"));
    assert_eq!(expand("", "pub(crate) fn f() {}"), printed("pub(crate) fn f() { {} }"));
    assert_eq!(expand("", "pub(super) fn f() {}"), printed("pub(crate) fn f() { {} }"));
    assert_eq!(expand("", "pub(in crate::a) fn f() {}"), printed("pub(crate) fn f() { {} }"));
}

#[test]
fn generic_parameters_are_kept() {
    assert_eq!(
        expand(r#"after = "done""#, "fn f<T: Clone, const N: usize>(x: [T; N]) -> usize { N }"),
        printed(
            "pub(crate) fn f<T: Clone, const N: usize>(x: [T; N]) -> usize {
                let result = (|| { { N } })();
                done(&x);
                result
            }"
        )
    );
}

// ---------------------------------------------------------------- failures

#[test]
fn malformed_reference_fails() {
    assert_eq!(
        failure(r#"before = "not a path""#, "pub fn f() {}"),
        ErrorKind::Reference(Hook::Before)
    );
    assert_eq!(failure(r#"after = """#, "pub fn f() {}"), ErrorKind::Reference(Hook::After));
    assert_eq!(failure(r#"after = "1abc""#, "pub fn f() {}"), ErrorKind::Reference(Hook::After));
}

#[test]
fn first_malformed_reference_is_reported() {
    assert_eq!(
        failure(r#"after = "a b", before = "c d""#, "pub fn f() {}"),
        ErrorKind::Reference(Hook::After)
    );
}

#[test]
fn malformed_reference_carries_the_parser_error() {
    match Aspect(tokens(r#"before = "a b""#), tokens("pub fn f() {}")) {
        Err(AspectError::Reference { hook, cause }) => {
            assert_eq!(hook, Hook::Before);
            assert!(!cause.to_string().is_empty());
        }
        other => panic!("unexpected outcome: {:?}", other),
    }
}

#[test]
fn receiver_fails() {
    assert_eq!(failure("", "fn f(&self, x: i64) {}"), ErrorKind::Receiver(0));
    assert_eq!(failure("", "fn f(self) {}"), ErrorKind::Receiver(0));
}

#[test]
fn pattern_fails() {
    assert_eq!(failure("", "fn f(x: i64, (a, b): (i64, i64)) {}"), ErrorKind::Pattern(1));
    assert_eq!(failure("", "fn f(_: i64) {}"), ErrorKind::Pattern(0));
}

#[test]
fn first_unsupported_parameter_is_reported() {
    assert_eq!(
        failure("", "fn f(x: i64, [a, b]: [i64; 2], Point { x: px, y: py }: Point) {}"),
        ErrorKind::Pattern(1)
    );
}

#[test]
fn parameters_are_checked_before_hooks() {
    assert_eq!(
        failure(r#"before = "not a path""#, "fn f((a, b): (i64, i64)) {}"),
        ErrorKind::Pattern(0)
    );
}

#[test]
fn malformed_arguments_fail() {
    assert_eq!(failure("before =", "pub fn f() {}"), ErrorKind::Arguments);
    assert_eq!(failure(r#"before = "a" after = "b""#, "pub fn f() {}"), ErrorKind::Arguments);
}

#[test]
fn item_that_is_no_function_fails() {
    assert_eq!(failure("", "struct S {}"), ErrorKind::Function);
    assert_eq!(failure("", "pub fn f() {} pub fn g() {}"), ErrorKind::Function);
    assert_eq!(failure("", "pub fn f() -> {}"), ErrorKind::Function);
}

#[test]
fn item_without_a_body_fails() {
    assert_eq!(failure("", "struct S;"), ErrorKind::Body);
    assert_eq!(failure("", "fn f();"), ErrorKind::Body);
    assert_eq!(failure("", "fn f() [x]"), ErrorKind::Body);
    assert_eq!(failure("", ""), ErrorKind::Body);
}

#[test]
fn arguments_are_read_before_the_function() {
    assert_eq!(failure("before =", "struct S;"), ErrorKind::Arguments);
}

// ---------------------------------------------------------------- what the parser is not handed

#[test]
fn literal_that_the_parser_does_not_read_is_refused() {
    let unreadable = ErrorKind::Unreadable(Part::Arguments);
    assert_eq!(failure(r#"before = c"x""#, "pub fn f() {}"), unreadable);
    assert_eq!(failure(r#"c"x""#, "pub fn f() {}"), unreadable);
    assert_eq!(failure(r#"list(inner(cr"x"))"#, "pub fn f() {}"), unreadable);
    assert_eq!(
        failure("", r#"pub fn f(x: [u8; c"x"]) {}"#),
        ErrorKind::Unreadable(Part::Signature)
    );
    assert_eq!(
        failure("", r#"pub fn f(#[doc = c"x"] x: u8) {}"#),
        ErrorKind::Unreadable(Part::Signature)
    );
    assert_eq!(
        failure(r#"before = "a<c\"x\">""#, "pub fn f() {}"),
        ErrorKind::Unreadable(Part::Reference(Hook::Before))
    );
}

#[test]
fn body_is_carried_as_it_stands() {
    assert_eq!(
        expand(r#"before = "ready""#, r#"pub fn f() { take(c"x", 0x1f, 1.5e3, b'a', "s"); }"#),
        printed(r#"pub fn f() { ready(); { take(c"x", 0x1f, 1.5e3, b'a', "s"); } }"#)
    );
    let deep = format!("pub fn f() {{ {} x {} }}", "(".repeat(5000), ")".repeat(5000));
    let long = format!("pub fn f() {{ {} }}", "- ".repeat(100000));
    assert!(Aspect(tokens(""), tokens(&deep)).is_ok());
    assert!(Aspect(tokens(""), tokens(&long)).is_ok());
}

#[test]
fn attributes_at_the_head_are_not_read() {
    let documented = format!(
        "{} #[inline] #[note = c\"x\"] pub fn f(x: i64) {{ work(x); }}",
        "/// A line of documentation.\n".repeat(200)
    );
    assert_eq!(
        expand(r#"after = "done""#, &documented),
        printed("pub fn f(x: i64) { { work(x); } done(&x); }")
    );
    assert_eq!(failure("", "#[inline] #![inner] fn f() {}"), ErrorKind::Function);
    assert_eq!(failure("", "#[inline] {}"), ErrorKind::Function);
    assert_eq!(failure("", "# {}"), ErrorKind::Function);
    assert_eq!(failure("", "#[inline]"), ErrorKind::Body);
}

#[test]
fn readable_literals_are_handed_on() {
    assert_eq!(
        expand(
            r##"a = "s", b = r#"raw"#, c = b"bytes", d = br"raw", e = b'x', f = 'c', g = 12u8, h = 1.5, i = 0x1f"##,
            "pub fn f(x: [u8; 4]) {}"
        ),
        printed("pub fn f(x: [u8; 4]) { {} }")
    );
}

#[test]
fn deep_nesting_is_refused() {
    let nested = |depth: usize| format!("{} x {}", "a(".repeat(depth), ")".repeat(depth));
    assert!(Aspect(tokens(&nested(32)), tokens("pub fn f() {}")).is_ok());
    assert_eq!(
        failure(&nested(33), "pub fn f() {}"),
        ErrorKind::Unreadable(Part::Arguments)
    );
    assert_eq!(
        failure(&nested(100000), "pub fn f() {}"),
        ErrorKind::Unreadable(Part::Arguments)
    );
    let wrapped = |depth: usize| {
        format!("pub fn f(x: {} u8 {}) {{}}", "(".repeat(depth), ")".repeat(depth))
    };
    assert!(Aspect(tokens(""), tokens(&wrapped(28))).is_ok());
    assert_eq!(failure("", &wrapped(29)), ErrorKind::Unreadable(Part::Signature));
    assert_eq!(failure("", &wrapped(100000)), ErrorKind::Unreadable(Part::Signature));
}

#[test]
fn long_input_is_rewritten() {
    let parameters = |count: usize, declared: &str| {
        (0..count).map(|i| format!("x{}: {}", i, declared)).collect::<Vec<String>>().join(" , ")
    };
    let names = |count: usize, mark: &str| {
        (0..count).map(|i| format!("{}x{}", mark, i)).collect::<Vec<String>>().join(", ")
    };
    for count in [16, 17, 100, 3000] {
        assert_eq!(
            expand(
                r#"before = "ready""#,
                &format!("pub fn f({}) {{}}", parameters(count, "i64"))
            ),
            printed(&format!(
                "pub fn f({}) {{ ready({}); {{}} }}",
                parameters(count, "i64"),
                names(count, "&")
            ))
        );
    }
    assert_eq!(
        expand(
            r#"after = "done""#,
            &format!("fn f({}) {{}}", parameters(500, "&mut Vec<Option<String> >"))
        ),
        printed(&format!(
            "pub(crate) fn f({}) {{ {{}} done({}); }}",
            parameters(500, "&mut Vec<Option<String> >"),
            names(500, "")
        ))
    );
    assert!(Aspect(
        tokens(""),
        tokens(&format!("pub fn f({}) {{}}", parameters(10, "Option<String>")))
    )
    .is_ok());
    let generics = (0..2000).map(|i| format!("T{}", i)).collect::<Vec<String>>();
    assert!(Aspect(tokens(""), tokens(&format!("pub fn f<{}>() {{}}", generics.join(", ")))).is_ok());
    let bounded = (0..12).map(|i| format!("T{}: Into<String>", i)).collect::<Vec<String>>();
    assert!(Aspect(tokens(""), tokens(&format!("pub fn f<{}>() {{}}", bounded.join(", ")))).is_ok());
    let bounds = (0..2000).map(|i| format!("T{}: Into<String>", i)).collect::<Vec<String>>();
    assert!(Aspect(
        tokens(""),
        tokens(&format!("pub fn f<T>() where {} {{}}", bounds.join(", ")))
    )
    .is_ok());
    assert!(Aspect(tokens(&"flag, ".repeat(5000)), tokens("pub fn f() {}")).is_ok());
    assert!(Aspect(tokens(&"note = \"x\", ".repeat(5000)), tokens("pub fn f() {}")).is_ok());
    let path = (0..2000).map(|i| format!("m{}", i)).collect::<Vec<String>>().join("::");
    assert!(Aspect(tokens(&format!("before = \"{}\"", path)), tokens("pub fn f() {}")).is_ok());
}

#[test]
fn long_chain_of_generic_arguments_is_refused() {
    let generic = |levels: usize| {
        format!("pub fn f(x: {} u8 {}) {{}}", "Vec<".repeat(levels), ">".repeat(levels))
    };
    assert!(Aspect(tokens(""), tokens(&generic(28))).is_ok());
    assert_eq!(failure("", &generic(29)), ErrorKind::Unreadable(Part::Signature));
    assert_eq!(failure("", &generic(100000)), ErrorKind::Unreadable(Part::Signature));
    let listed = |levels: usize| {
        format!("pub fn f(x: {} u8 {}) {{}}", "A<B, ".repeat(levels), ">".repeat(levels))
    };
    assert!(Aspect(tokens(""), tokens(&listed(28))).is_ok());
    assert_eq!(failure("", &listed(29)), ErrorKind::Unreadable(Part::Signature));
    assert_eq!(failure("", &listed(100000)), ErrorKind::Unreadable(Part::Signature));
}

#[test]
fn long_chain_of_references_is_refused() {
    let borrowed = |levels: usize| format!("pub fn f(x: {} u8) {{}}", "& ".repeat(levels));
    assert!(Aspect(tokens(""), tokens(&borrowed(28))).is_ok());
    assert_eq!(failure("", &borrowed(29)), ErrorKind::Unreadable(Part::Signature));
    assert_eq!(failure("", &borrowed(100000)), ErrorKind::Unreadable(Part::Signature));
    let pointed = |levels: usize| format!("pub fn f(x: {} u8) {{}}", "*const ".repeat(levels));
    assert!(Aspect(tokens(""), tokens(&pointed(14))).is_ok());
    assert_eq!(failure("", &pointed(15)), ErrorKind::Unreadable(Part::Signature));
    let matched = |levels: usize| format!("pub fn f({} x: u8) {{}}", "& ".repeat(levels));
    assert_eq!(failure("", &matched(28)), ErrorKind::Pattern(0));
    assert_eq!(failure("", &matched(29)), ErrorKind::Unreadable(Part::Signature));
    let bound = |levels: usize| format!("pub fn f({} x: u8) {{}}", "a @ ".repeat(levels));
    assert!(Aspect(tokens(""), tokens(&bound(28))).is_ok());
    assert_eq!(failure("", &bound(29)), ErrorKind::Unreadable(Part::Signature));
}

#[test]
fn long_chain_of_operators_is_refused() {
    let length = |chain: &str| format!("pub fn f(x: [u8; {} 1]) {{}}", chain);
    for (step, marks) in [
        ("- ", 1),
        ("! ", 1),
        ("* ", 1),
        ("return ", 1),
        ("a = ", 1),
        ("a + ", 1),
        ("a / ", 1),
        ("a > ", 1),
        ("|| ", 2),
        (".. ", 2),
    ] {
        let most = 27 / marks;
        assert!(Aspect(tokens(""), tokens(&length(&step.repeat(most)))).is_ok(), "{}", step);
        assert_eq!(
            failure("", &length(&step.repeat(most + 1))),
            ErrorKind::Unreadable(Part::Signature),
            "{}",
            step
        );
        assert_eq!(
            failure("", &length(&step.repeat(100000))),
            ErrorKind::Unreadable(Part::Signature),
            "{}",
            step
        );
    }
    let closures = |levels: usize| length(&"|a, b| ".repeat(levels));
    assert!(Aspect(tokens(""), tokens(&closures(13))).is_ok());
    assert_eq!(failure("", &closures(14)), ErrorKind::Unreadable(Part::Signature));
}

#[test]
fn long_chain_in_a_hook_path_is_refused() {
    let path = |levels: usize| format!("{} u8 {}", "a<".repeat(levels), ">".repeat(levels));
    let reference = |levels: usize| format!("before = \"{}\"", path(levels));
    assert!(Aspect(tokens(&reference(32)), tokens("pub fn f() {}")).is_ok());
    assert_eq!(
        failure(&reference(33), "pub fn f() {}"),
        ErrorKind::Unreadable(Part::Reference(Hook::Before))
    );
    let qualified = |levels: usize| {
        format!("before = \"{} T {}\"", "< ".repeat(levels), " as A > :: B".repeat(levels))
    };
    assert_eq!(failure(&qualified(16), "pub fn f() {}"), ErrorKind::Reference(Hook::Before));
    assert_eq!(
        failure(&qualified(17), "pub fn f() {}"),
        ErrorKind::Unreadable(Part::Reference(Hook::Before))
    );
}

// ---------------------------------------------------------------- the emitted code at work
//
// `traced` below is the text asserted in the test, written out.

fn note_before(log: &RefCell<Vec<String>>, x: &i64) {
    log.borrow_mut().push(format!("before {}", x));
}

fn note_after(log: &RefCell<Vec<String>>, x: &i64) {
    log.borrow_mut().push(format!("after {}", x));
}

pub(crate) fn traced(log: &RefCell<Vec<String>>, x: i64) -> i64 {
    note_before(log, &x);
    let result = (|| {
        {
            log.borrow_mut().push(format!("body {}", x));
            x + 1
        }
    })();
    note_after(log, &x);
    result
}

#[test]
fn hooks_run_around_the_body_and_the_value_is_kept() {
    assert_eq!(
        expand(
            r#"before = "note_before", after = "note_after""#,
            r#"fn traced(log: &RefCell<Vec<String>>, x: i64) -> i64 {
                log.borrow_mut().push(format!("body {}", x));
                x + 1
            }"#
        ),
        printed(
            r#"pub(crate) fn traced(log: &RefCell<Vec<String> > , x: i64) -> i64 {
                note_before(log, &x);
                let result = (|| {
                    {
                        log.borrow_mut().push(format!("body {}", x));
                        x + 1
                    }
                })();
                note_after(log, &x);
                result
            }"#
        )
    );

    let log = RefCell::new(Vec::new());
    assert_eq!(traced(&log, 42), 43);
    assert_eq!(log.into_inner(), vec!["before 42", "body 42", "after 42"]);
}

// ---------------------------------------------------------------- a struct by value
//
// `pick` below is the text asserted in the test, written out.

#[derive(Clone, Debug, PartialEq)]
pub struct Position {
    pub x: i64,
    pub y: f64,
}

fn see_before(log: &RefCell<Vec<String>>, position: &Position) {
    log.borrow_mut().push(format!("before {} {}", position.x, position.y));
}

fn see_after(log: &RefCell<Vec<String>>, position: &Position) {
    log.borrow_mut().push(format!("after {} {}", position.x, position.y));
}

pub fn pick(log: &RefCell<Vec<String>>, position: Position) -> i64 {
    see_before(log, &position);
    let result = (|| {
        {
            position.x
        }
    })();
    see_after(log, &position);
    result
}

#[test]
fn struct_parameter_is_seen_by_both_hooks_and_the_value_returned() {
    assert_eq!(
        expand(
            r#"before = "see_before", after = "see_after""#,
            "pub fn pick(log: &RefCell<Vec<String> >, position: Position) -> i64 { position.x }"
        ),
        printed(
            "pub fn pick(log: &RefCell<Vec<String> > , position: Position) -> i64 {
                see_before(log, &position);
                let result = (|| { { position.x } })();
                see_after(log, &position);
                result
            }"
        )
    );

    let log = RefCell::new(Vec::new());
    assert_eq!(pick(&log, Position { x: 9527, y: 8848.01 }), 9527);
    assert_eq!(log.into_inner(), vec!["before 9527 8848.01", "after 9527 8848.01"]);
}
