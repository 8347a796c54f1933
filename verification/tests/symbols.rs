use lola_parser::{Ident, Span, Symbol, SymbolTable};

#[test]
fn interning_twice_gives_the_same_symbol() {
    let mut table = SymbolTable::new();
    let first = table.get_symbol_for("stream");
    let other = table.get_symbol_for("other");
    let second = table.get_symbol_for("stream");
    assert_eq!(first, second);
    assert_ne!(first, other);
    assert_eq!(table.len(), 2);
    assert_eq!(table.get_string(first), "stream");
    assert_eq!(table.get_string(other), "other");
}

#[test]
fn symbols_count_up_from_zero() {
    let mut table = SymbolTable::new();
    assert_eq!(table.get_symbol_for("a"), Symbol::new(0));
    assert_eq!(table.get_symbol_for("b"), Symbol::new(1));
    assert_eq!(table.get_symbol_for(""), Symbol::new(2));
    assert_eq!(table.get_symbol_for("a"), Symbol::new(0));
    assert_eq!(table.get_symbol_for("μ"), Symbol::new(3));
    assert_eq!(table.get_string(Symbol::new(2)), "");
    assert_eq!(table.get_string(Symbol::new(3)), "μ");
}

#[test]
fn symbol_is_its_number() {
    assert_eq!(Symbol::new(7).to_usize(), 7);
    assert_eq!(Symbol::new(u32::MAX).to_usize(), u32::MAX as usize);
}

#[test]
fn ident_keeps_name_and_span() {
    let ident = Ident::new(Symbol::new(3), Span::new(4, 9));
    assert_eq!(ident.name, Symbol::new(3));
    assert_eq!(ident.span, Span::new(4, 9));
    assert_eq!(ident.span.start, 4);
    assert_eq!(ident.span.end, 9);
}
