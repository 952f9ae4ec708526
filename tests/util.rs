use l1c::util::errors::Errors;
use l1c::util::mark::{dummy_mark, CodeMap, Mark, Marked};
use l1c::util::symbol::{Generator, Symbol};
use l1c::util::temp::{Temp, TempAllocator};

#[test]
fn intern_same_text_twice_gives_same_symbol() {
    let mut g = Generator::new();
    let a = g.intern("x");
    let b = g.intern("x");
    assert_eq!(a, b);
}

#[test]
fn intern_distinct_texts_gives_distinct_symbols() {
    let mut g = Generator::new();
    let a = g.intern("x");
    let b = g.intern("y");
    assert_ne!(a, b);
}

#[test]
fn intern_assigns_handles_in_first_seen_order() {
    let mut g = Generator::new();
    assert_eq!(g.intern("b"), Symbol(0));
    assert_eq!(g.intern("a"), Symbol(1));
    assert_eq!(g.intern("b"), Symbol(0));
    assert_eq!(g.intern("c"), Symbol(2));
}

#[test]
fn intern_matches_text_byte_for_byte() {
    let mut g = Generator::new();
    let a = g.intern("ab");
    let b = g.intern("aB");
    let c = g.intern("ab ");
    assert_ne!(a, b);
    assert_ne!(a, c);
    assert_ne!(b, c);
}

#[test]
fn stored_table_round_trips_texts() {
    let mut g = Generator::new();
    let x = g.intern("x");
    let count = g.intern("count");
    let x2 = g.intern("x");
    let table = g.store();
    assert_eq!(table.len(), 2);
    assert_eq!(table.name(x), "x");
    assert_eq!(table.name(count), "count");
    assert_eq!(table.name(x2), "x");
    assert_eq!(table.name(x), table.name(x));
}

#[test]
fn temps_are_distinct_and_counted() {
    let mut t = TempAllocator::new();
    assert_eq!(t.count(), 0);
    let a = t.gen();
    let b = t.gen();
    let c = t.gen();
    assert_eq!(a, Temp(0));
    assert_eq!(b, Temp(1));
    assert_eq!(c, Temp(2));
    assert_ne!(a, b);
    assert_ne!(b, c);
    assert_eq!(t.count(), 3);
}

#[test]
fn temp_allocator_reset_starts_over() {
    let mut t = TempAllocator::new();
    t.gen();
    t.gen();
    t.reset();
    assert_eq!(t.count(), 0);
    assert_eq!(t.gen(), Temp(0));
}

#[test]
fn linecol_counts_lines_and_columns_from_one() {
    let cm = CodeMap::new(String::from("ab\ncd\n"), String::from("f.l1"));
    assert_eq!(cm.linecol(0), (1, 1));
    assert_eq!(cm.linecol(1), (1, 2));
    assert_eq!(cm.linecol(3), (2, 1));
    assert_eq!(cm.linecol(4), (2, 2));
}

#[test]
fn linecol_of_newline_is_column_zero_of_next_line() {
    let cm = CodeMap::new(String::from("ab\ncd\n"), String::from("f.l1"));
    assert_eq!(cm.linecol(2), (2, 0));
    assert_eq!(cm.linecol(5), (3, 0));
}

#[test]
fn linecol_past_end_is_line_after_last() {
    let cm = CodeMap::new(String::from("ab\ncd"), String::from("f.l1"));
    assert_eq!(cm.linecol(5), (3, 1));
    assert_eq!(cm.linecol(100), (3, 1));
    let empty = CodeMap::new(String::new(), String::from("e.l1"));
    assert_eq!(empty.linecol(0), (2, 1));
}

#[test]
fn mark_renders_both_ends() {
    let cm = CodeMap::new(String::from("int x;\nreturn y;\n"), String::from("f.l1"));
    let m = Mark::new(14, 15);
    assert_eq!(m.to_string(&cm), "2:8-2:9");
    assert_eq!(cm.file(), "f.l1");
}

#[test]
fn marked_wraps_and_unwraps() {
    let m = Marked::new(7u32, Mark::new(1, 3));
    assert_eq!(m.mark, Mark { lo: 1, hi: 3 });
    assert_eq!(m.unwrap(), 7);
}

#[test]
fn errors_add_places_message() {
    let cm = CodeMap::new(String::from("int x;\nreturn y;\n"), String::from("f.l1"));
    let mut e = Errors::new(cm);
    assert!(e.check().is_ok());
    e.add(&Mark::new(14, 15), "undeclared variable `y`");
    assert_eq!(e.lines().len(), 1);
    assert_eq!(e.lines()[0], "f.l1:2:8-2:9error: undeclared variable `y`");
    let fatal = match e.check() {
        Ok(()) => panic!("an error was reported"),
        Err(f) => f,
    };
    assert_eq!(fatal.diagnostics, e.lines().clone());
}

#[test]
fn errors_at_whole_program_have_no_location() {
    let cm = CodeMap::new(String::from("int x;"), String::from("f.l1"));
    let mut e = Errors::new(cm);
    e.add(&dummy_mark(), "main does not return");
    assert_eq!(e.lines()[0], "error: main does not return");
}

#[test]
fn errors_die_keeps_earlier_lines() {
    let cm = CodeMap::new(String::from("x"), String::from("f.l1"));
    let mut e = Errors::new(cm);
    e.add(&dummy_mark(), "first");
    let fatal = e.die(&Mark::new(0, 1), "second");
    assert_eq!(
        fatal.diagnostics,
        vec![String::from("error: first"), String::from("f.l1:1:1-2:1error: second")]
    );
}

#[test]
fn marked_nodes_compare_by_node_only() {
    let a = Marked::new(7u32, Mark::new(0, 1));
    let b = Marked::new(7u32, Mark::new(5, 9));
    let c = Marked::new(8u32, Mark::new(0, 1));
    assert!(a == b);
    assert!(a != c);
}
