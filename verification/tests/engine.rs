//! End-to-end behaviour of the engine: parsing, bundle queries, rendering.

use fluex::args::ArgMap;
use fluex::ast::PatternElement;
use fluex::bundle::{Bundle, LocaleId};
use fluex::errors::{BundleError, ParseErrorKind, RenderError, ResolutionErrorKind};
use fluex::parser::parse;

fn bundle(locale: &str, text: &str) -> Bundle {
    match Bundle::new(locale, text) {
        Ok(b) => b,
        Err(_) => panic!("bundle construction failed"),
    }
}

#[test]
fn literal_round_trip() {
    let b = bundle("en-US", "hello = Hello, world!");
    let args = ArgMap::new();
    let (out, errs) = b.format_pattern("hello", &args).unwrap();
    assert_eq!(out, "Hello, world!");
    assert_eq!(errs.len(), 0);
}

#[test]
fn literal_keeps_inner_whitespace() {
    let b = bundle("en", "spacey = a  b\tc ");
    let args = ArgMap::new();
    let (out, errs) = b.format_pattern("spacey", &args).unwrap();
    assert_eq!(out, "a  b\tc ");
    assert_eq!(errs.len(), 0);
}

#[test]
fn substitution_correctness() {
    let b = bundle("en-US", "greet = Hello {$name}!");
    let mut args = ArgMap::new();
    args.insert("name".to_string(), "Ada".to_string());
    let (out, errs) = b.format_pattern("greet", &args).unwrap();
    assert_eq!(out, "Hello Ada!");
    assert_eq!(errs.len(), 0);
}

#[test]
fn missing_argument_fallback() {
    let b = bundle("en-US", "greet = Hello {$name}!");
    let args = ArgMap::new();
    let (out, errs) = b.format_pattern("greet", &args).unwrap();
    assert_eq!(out, "Hello {$name}!");
    assert_eq!(errs.len(), 1);
    assert_eq!(errs[0].kind, ResolutionErrorKind::MissingArgument);
    assert_eq!(errs[0].detail, "name");
}

#[test]
fn spaced_placeable_renders_canonical_marker() {
    let b = bundle("en", "greet = Hello { $name }!");
    let args = ArgMap::new();
    let (out, errs) = b.format_pattern("greet", &args).unwrap();
    assert_eq!(out, "Hello {$name}!");
    assert_eq!(errs.len(), 1);
}

#[test]
fn unknown_message() {
    let b = bundle("en-US", "greet = Hello {$name}!");
    assert!(!b.has_message("nonexistent"));
    assert!(b.has_message("greet"));
    let args = ArgMap::new();
    let r = b.format_pattern("nonexistent", &args);
    assert!(matches!(r, Err(RenderError::UnknownMessage(ref id)) if id == "nonexistent"));
}

#[test]
fn message_lookup_is_case_sensitive() {
    let b = bundle("en", "greet = hi");
    assert!(!b.has_message("Greet"));
    assert!(b.has_message("greet"));
}

#[test]
fn duplicate_id_rejected() {
    let r = Bundle::new("en-US", "foo = a\nbar = middle\nfoo = b");
    match r {
        Err(BundleError::ParseFailure(pe)) => {
            assert_eq!(pe.kind, ParseErrorKind::DuplicateMessageId);
            assert_eq!(pe.detail, "foo");
        }
        _ => panic!("duplicate id must fail bundle construction"),
    }
}

#[test]
fn format_is_idempotent() {
    let b = bundle("en-US", "greet = Hello {$name} and {$other}!");
    let mut args = ArgMap::new();
    args.insert("name".to_string(), "Ada".to_string());
    let (out1, errs1) = b.format_pattern("greet", &args).unwrap();
    let (out2, errs2) = b.format_pattern("greet", &args).unwrap();
    assert_eq!(out1, out2);
    assert_eq!(errs1.len(), errs2.len());
    for (a, c) in errs1.iter().zip(errs2.iter()) {
        assert_eq!(a.kind, c.kind);
        assert_eq!(a.detail, c.detail);
    }
}

#[test]
fn unterminated_placeable_rejected() {
    let r = parse("greet = Hello {$name");
    match r {
        Err(pe) => assert_eq!(pe.kind, ParseErrorKind::UnterminatedPlaceable),
        Ok(_) => panic!("unterminated placeable must fail parsing"),
    }
    assert!(matches!(
        Bundle::new("en", "greet = Hello {$name"),
        Err(BundleError::ParseFailure(_))
    ));
}

#[test]
fn empty_pattern_collects_empty_pattern_error() {
    let b = bundle("en", "empty =");
    let args = ArgMap::new();
    let (out, errs) = b.format_pattern("empty", &args).unwrap();
    assert_eq!(out, "");
    assert_eq!(errs.len(), 1);
    assert_eq!(errs[0].kind, ResolutionErrorKind::EmptyPattern);
    assert_eq!(errs[0].detail, "empty");
}

#[test]
fn comments_and_blank_lines_skipped() {
    let b = bundle("en", "# a comment\n\n   \ngreet = hi\n# another");
    let args = ArgMap::new();
    let (out, errs) = b.format_pattern("greet", &args).unwrap();
    assert_eq!(out, "hi");
    assert_eq!(errs.len(), 0);
}

#[test]
fn continuation_joins_with_newline() {
    let b = bundle("en", "multi = first\n    second\n\tthird");
    let args = ArgMap::new();
    let (out, errs) = b.format_pattern("multi", &args).unwrap();
    assert_eq!(out, "first\nsecond\nthird");
    assert_eq!(errs.len(), 0);
}

#[test]
fn placeable_spanning_continuation_lines() {
    let b = bundle("en", "multi = Hello {$name\n    }!");
    let mut args = ArgMap::new();
    args.insert("name".to_string(), "Ada".to_string());
    let (out, errs) = b.format_pattern("multi", &args).unwrap();
    assert_eq!(out, "Hello Ada!");
    assert_eq!(errs.len(), 0);
}

#[test]
fn attributes_are_stored() {
    let b = bundle("en", "login = Log in\n.tooltip = Click to log in");
    let m = b.get_message("login").unwrap();
    assert_eq!(m.attributes.len(), 1);
    assert_eq!(m.attributes[0].0, "tooltip");
    assert!(matches!(m.attributes[0].1[0], PatternElement::Text(ref t) if t == "Click to log in"));
}

#[test]
fn duplicate_attribute_rejected() {
    let r = parse("login = Log in\n.tip = a\n.tip = b");
    match r {
        Err(pe) => assert_eq!(pe.kind, ParseErrorKind::DuplicateAttributeId),
        Ok(_) => panic!("duplicate attribute must fail parsing"),
    }
}

#[test]
fn invalid_identifier_rejected() {
    for text in ["9foo = x", "foo bar baz", "= x", "fo$o = x"] {
        match parse(text) {
            Err(pe) => assert_eq!(pe.kind, ParseErrorKind::InvalidIdentifier),
            Ok(_) => panic!("malformed definition line must fail parsing"),
        }
    }
}

#[test]
fn placeable_without_sigil_rejected() {
    match parse("greet = Hello {name}!") {
        Err(pe) => assert_eq!(pe.kind, ParseErrorKind::InvalidIdentifier),
        Ok(_) => panic!("placeable without sigil must fail parsing"),
    }
}

#[test]
fn unattached_lines_rejected() {
    match parse(".attr = x") {
        Err(pe) => assert_eq!(pe.kind, ParseErrorKind::UnattachedLine),
        Ok(_) => panic!("attribute before any message must fail parsing"),
    }
    match parse("   continuation first") {
        Err(pe) => assert_eq!(pe.kind, ParseErrorKind::UnattachedLine),
        Ok(_) => panic!("continuation before any message must fail parsing"),
    }
}

#[test]
fn parse_is_all_or_nothing() {
    let r = parse("good = fine\nbad = {$oops");
    assert!(r.is_err());
}

#[test]
fn later_insert_shadows_earlier() {
    let b = bundle("en", "greet = Hello {$name}!");
    let mut args = ArgMap::new();
    args.insert("name".to_string(), "first".to_string());
    args.insert("name".to_string(), "second".to_string());
    let (out, _) = b.format_pattern("greet", &args).unwrap();
    assert_eq!(out, "Hello second!");
}

#[test]
fn argument_value_is_opaque_text() {
    let b = bundle("en", "greet = Hello {$name}!");
    let mut args = ArgMap::new();
    args.insert("name".to_string(), "{$name} <b>".to_string());
    let (out, errs) = b.format_pattern("greet", &args).unwrap();
    assert_eq!(out, "Hello {$name} <b>!");
    assert_eq!(errs.len(), 0);
}

#[test]
fn several_placeables_in_order() {
    let b = bundle("en", "pair = {$a}{$b} and {$a}");
    let mut args = ArgMap::new();
    args.insert("a".to_string(), "1".to_string());
    args.insert("b".to_string(), "2".to_string());
    let (out, errs) = b.format_pattern("pair", &args).unwrap();
    assert_eq!(out, "12 and 1");
    assert_eq!(errs.len(), 0);
}

#[test]
fn valid_locales_accepted() {
    for tag in ["en", "en-US", "zh-Hant-TW", "de-DE-1996", "pt-BR"] {
        assert!(LocaleId::new(tag).is_ok());
        assert!(Bundle::new(tag, "m = x").is_ok());
    }
}

#[test]
fn invalid_locales_rejected() {
    for tag in ["", "e", "x1", "en--US", "verylonglanguage", "-en", "en-", "en US"] {
        match LocaleId::new(tag) {
            Err(BundleError::InvalidLocale(d)) => assert_eq!(d, tag),
            _ => panic!("malformed locale tag must be rejected"),
        }
        assert!(Bundle::new(tag, "m = x").is_err());
    }
}

#[test]
fn locale_tag_preserved() {
    let b = bundle("en-US", "m = x");
    assert_eq!(b.locale().tag(), "en-US");
}

#[test]
fn get_message_absent_is_none() {
    let b = bundle("en", "m = x");
    assert!(b.get_message("other").is_none());
}

#[test]
fn identifiers_may_hold_digits_underscores_hyphens() {
    let b = bundle("en", "msg_1-a = v1\ngreet = {$arg-2_b}");
    let args = ArgMap::new();
    assert_eq!(b.format_pattern("msg_1-a", &args).unwrap().0, "v1");
    let (out, errs) = b.format_pattern("greet", &args).unwrap();
    assert_eq!(out, "{$arg-2_b}");
    assert_eq!(errs[0].detail, "arg-2_b");
}

#[test]
fn empty_resource_has_no_messages() {
    let r = parse("").unwrap();
    assert_eq!(r.messages.len(), 0);
    let b = bundle("en", "");
    assert!(!b.has_message("anything"));
}

#[test]
fn several_messages_and_attributes() {
    let text = "one = 1\ntwo = 2\n.a = attr a\n.b = attr b\nthree = 3";
    let b = bundle("en", text);
    let args = ArgMap::new();
    assert_eq!(b.format_pattern("one", &args).unwrap().0, "1");
    assert_eq!(b.format_pattern("two", &args).unwrap().0, "2");
    assert_eq!(b.format_pattern("three", &args).unwrap().0, "3");
    let two = b.get_message("two").unwrap();
    assert_eq!(two.attributes.len(), 2);
    assert_eq!(two.attributes[0].0, "a");
    assert_eq!(two.attributes[1].0, "b");
}

#[test]
fn continuation_extends_last_attribute() {
    let b = bundle("en", "login = Log in\n.tip = first\n   more tip");
    let m = b.get_message("login").unwrap();
    assert_eq!(m.attributes.len(), 1);
    assert!(matches!(m.attributes[0].1[0], PatternElement::Text(ref t) if t == "first\nmore tip"));
}

#[test]
fn equals_sign_in_body_is_literal() {
    let b = bundle("en", "eq = a = b");
    let args = ArgMap::new();
    let (out, _) = b.format_pattern("eq", &args).unwrap();
    assert_eq!(out, "a = b");
}

#[test]
fn closing_brace_alone_is_literal() {
    let b = bundle("en", "m = a } b");
    let args = ArgMap::new();
    let (out, errs) = b.format_pattern("m", &args).unwrap();
    assert_eq!(out, "a } b");
    assert_eq!(errs.len(), 0);
}
