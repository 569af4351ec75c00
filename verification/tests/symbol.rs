use symbol_core::CmpOp;
use symbol_core::LexOrdering;
use symbol_core::Symbol;
use symbol_core::ValidationViolation;

fn sym(value: &str) -> Symbol {
    Symbol::new_checked(value).expect("value should be valid")
}

#[test]
fn new_checked_accepts_valid_values() {
    for value in ["A", "AAPL", "AAPL.XNAS", "ETH/USDT", "BTC-PERP", "a1_b2"] {
        let s = sym(value);
        assert_eq!(s.to_string(), value);
        assert_eq!(s.value(), value);
    }
}

#[test]
fn new_checked_accepts_maximum_length() {
    let value = "X".repeat(64);
    let s = sym(&value);
    assert_eq!(s.to_string(), value);
}

#[test]
fn new_checked_rejects_empty() {
    let e = Symbol::new_checked("").unwrap_err();
    assert_eq!(e.violation, ValidationViolation::LengthUnderMinimum);
    assert_eq!(e.value, "");
}

#[test]
fn new_checked_rejects_over_maximum_length() {
    let value = "X".repeat(65);
    let e = Symbol::new_checked(&value).unwrap_err();
    assert_eq!(e.violation, ValidationViolation::LengthOverMaximum);
    assert_eq!(e.value, value);
}

#[test]
fn new_checked_rejects_disallowed_characters() {
    for value in ["AAPL XNAS", " ", "AB\tCD", "AB\n", "caf\u{e9}"] {
        let e = Symbol::new_checked(value).unwrap_err();
        assert_eq!(e.violation, ValidationViolation::DisallowedCharacter);
        assert_eq!(e.value, value);
    }
}

#[test]
fn from_str_matches_new_checked() {
    let a = Symbol::from_str("AAPL.XNAS").unwrap();
    assert_eq!(a.to_string(), "AAPL.XNAS");
    let e = Symbol::from_str("").unwrap_err();
    assert_eq!(e.violation, ValidationViolation::LengthUnderMinimum);
}

#[test]
fn error_accessors_and_message() {
    let e = Symbol::new_checked("").unwrap_err();
    assert_eq!(e.rejected_value(), "");
    assert_eq!(e.violation_text(), "length under minimum");
    assert_eq!(e.message(), "symbol value rejected (length under minimum): ''");

    let e = Symbol::new_checked("BAD VALUE").unwrap_err();
    assert_eq!(
        e.message(),
        "symbol value rejected (disallowed character): 'BAD VALUE'"
    );

    let e = Symbol::new_checked(&"Y".repeat(70)).unwrap_err();
    assert_eq!(e.violation_text(), "length over maximum");
}

#[test]
fn equals_agrees_with_canonical_strings() {
    let a = sym("AAPL.XNAS");
    let b = sym("AAPL.XNAS");
    let c = sym("MSFT.XNAS");
    assert!(a.equals(&b));
    assert!(!a.equals(&c));
    assert_eq!(a.equals(&b), a.to_string() == b.to_string());
    assert_eq!(a.equals(&c), a.to_string() == c.to_string());
    assert!(a == b);
    assert!(a != c);
}

#[test]
fn equal_symbols_hash_equal() {
    let a = sym("AAPL.XNAS");
    let b = sym("AAPL.XNAS");
    assert_eq!(a.hash(), b.hash());
    let c = sym("A");
    let d = sym("A");
    assert_eq!(c.hash(), d.hash());
}

#[test]
fn hash_is_deterministic_within_a_run() {
    let a = sym("ETH/USDT");
    assert_eq!(a.hash(), a.hash());
}

#[test]
fn round_trip_two_phase_reconstruction() {
    let x = sym("AAPL.XNAS");
    let state = x.state();
    assert_eq!(state, x.to_string());
    let mut y = Symbol::unchecked_default();
    y.set_inner(&state);
    assert!(y.equals(&x));
    assert_eq!(y.to_string(), x.to_string());
}

#[test]
fn reconstruct_matches_checked_construction() {
    let x = sym("BTC-PERP");
    let y = Symbol::reconstruct(&x.state());
    assert!(y.equals(&x));
    assert_eq!(y.to_string(), "BTC-PERP");
    assert_eq!(y.hash(), x.hash());
    assert_eq!(y.is_composite(), x.is_composite());
    assert_eq!(y.root(), x.root());
    assert_eq!(y.topic(), x.topic());
}

#[test]
fn unchecked_default_holds_sentinel() {
    let s = Symbol::unchecked_default();
    assert_eq!(s.to_string(), "NULL");
}

#[test]
fn composite_derivation() {
    let composite = sym("AAPL.XNAS");
    assert!(composite.is_composite());
    assert_eq!(composite.root(), "AAPL");

    let simple = sym("AAPL");
    assert!(!simple.is_composite());
    assert_eq!(simple.root(), "AAPL");
}

#[test]
fn root_takes_part_before_first_separator() {
    let s = sym("A.B.C");
    assert!(s.is_composite());
    assert_eq!(s.root(), "A");

    let leading = sym(".XNAS");
    assert!(leading.is_composite());
    assert_eq!(leading.root(), "");
}

#[test]
fn topic_derivation() {
    let composite = sym("AAPL.XNAS");
    let topic = composite.topic();
    assert_eq!(topic, "AAPL*");
    assert!(!topic.is_empty());
    assert_ne!(topic, composite.to_string());

    let simple = sym("AAPL");
    assert_eq!(simple.topic(), "AAPL");
}

#[test]
fn debug_string_embeds_canonical_form() {
    let s = sym("AAPL.XNAS");
    let debug = s.to_debug_string();
    assert_eq!(debug, "Symbol('AAPL.XNAS')");
    assert!(debug.contains(s.to_string().as_str()));
    assert_ne!(debug, s.to_string());
}

#[test]
fn derivation_accessors_are_idempotent() {
    let s = sym("AAPL.XNAS");
    assert_eq!(s.is_composite(), s.is_composite());
    assert_eq!(s.root(), s.root());
    assert_eq!(s.topic(), s.topic());
    assert_eq!(s.hash(), s.hash());
    assert_eq!(s.to_string(), s.to_string());
    assert_eq!(s.to_debug_string(), s.to_debug_string());
}

#[test]
fn richcmp_supports_equality_only() {
    let a = sym("AAPL");
    let b = sym("AAPL");
    let c = sym("MSFT");
    assert_eq!(a.richcmp(Some(&b), CmpOp::Eq), Some(true));
    assert_eq!(a.richcmp(Some(&c), CmpOp::Eq), Some(false));
    assert_eq!(a.richcmp(Some(&b), CmpOp::Ne), Some(false));
    assert_eq!(a.richcmp(Some(&c), CmpOp::Ne), Some(true));
    assert_eq!(a.richcmp(Some(&b), CmpOp::Lt), None);
    assert_eq!(a.richcmp(Some(&b), CmpOp::Le), None);
    assert_eq!(a.richcmp(Some(&b), CmpOp::Gt), None);
    assert_eq!(a.richcmp(Some(&b), CmpOp::Ge), None);
    assert_eq!(a.richcmp(None, CmpOp::Eq), None);
    assert_eq!(a.richcmp(None, CmpOp::Ne), None);
}

#[test]
fn lexicographic_comparison() {
    let a = sym("AAPL");
    let m = sym("MSFT");
    assert_eq!(a.compare_lexical(&m), LexOrdering::Less);
    assert_eq!(m.compare_lexical(&a), LexOrdering::Greater);
    assert_eq!(a.compare_lexical(&sym("AAPL")), LexOrdering::Equal);
    assert_eq!(sym("AA").compare_lexical(&a), LexOrdering::Less);
    assert_eq!(a.compare_lexical(&sym("AA")), LexOrdering::Greater);
}

#[test]
fn clone_preserves_value() {
    let a = sym("AAPL.XNAS");
    let b = a.clone();
    assert!(a.equals(&b));
    assert_eq!(b.to_string(), "AAPL.XNAS");
}
