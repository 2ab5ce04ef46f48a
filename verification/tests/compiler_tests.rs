use waveguide::ast::structure::rule_name;
use waveguide::ast::Rule;
use waveguide::high_level::compiler::{FAKE_BUILTIN_SOURCE, BUILTIN_SOURCE_NAME};
use waveguide::high_level::{Compiler, PerformanceCounter, PerformanceCounters};
use waveguide::SourceSet;

#[test]
fn compiler_starts_with_builtins() {
    let compiler = Compiler::new();
    assert_eq!(compiler.find_source("(internal code) builtins"), Some(0));
    let (name, content) = compiler.borrow_source(0);
    assert_eq!(name, BUILTIN_SOURCE_NAME);
    assert_eq!(content, FAKE_BUILTIN_SOURCE);
    assert!(content.contains("DataType Int;"));
    assert_eq!(compiler.find_source("main.ns"), None);
    assert_eq!(compiler.borrow_performance_counters().ast.num_invocations, 0);
}

#[test]
fn later_sources_hide_earlier_ones() {
    let mut compiler = Compiler::new();
    compiler.set_error_width(120);
    compiler.add_source("main.ns".to_owned(), "a".to_owned());
    compiler.add_source("lib.ns".to_owned(), "b".to_owned());
    compiler.add_source("main.ns".to_owned(), "c".to_owned());
    assert_eq!(compiler.find_source("main.ns"), Some(3));
    assert_eq!(compiler.borrow_source(3).1, "c");
    assert_eq!(compiler.find_source("lib.ns"), Some(2));
}

#[test]
fn counting_performance() {
    let mut counter = PerformanceCounter::new();
    counter.record(5);
    counter.record(7);
    assert_eq!(counter.time, 12);
    assert_eq!(counter.num_invocations, 2);
}

#[test]
fn source_sets() {
    let mut sources = SourceSet::new();
    sources.add_item("main.ns".to_owned(), "x".to_owned());
    let all = sources.borrow_sources();
    assert_eq!(all.len(), 2);
    assert_eq!(all[0].0, "(internal code) builtins");
    assert_eq!(all[1], ("main.ns".to_owned(), "x".to_owned()));
}

#[test]
fn rule_names() {
    assert_eq!(rule_name(&Rule::dec_int), "integer literal");
    assert_eq!(rule_name(&Rule::COMMENT), "comment");
    assert_eq!(rule_name(&Rule::block_comment), "comment");
    assert_eq!(rule_name(&Rule::vpe), "value-producing expression");
    assert_eq!(rule_name(&Rule::root), "program");
    assert_eq!(rule_name(&Rule::integer), "int literal");
}

#[test]
fn describing_counters() {
    let mut counter = PerformanceCounter::new();
    counter.record(12);
    counter.record(30);
    assert_eq!(counter.describe(), "42ms (2 invocations)");
    let mut counters = PerformanceCounters::new();
    counters.resolved.record(7);
    assert_eq!(
        counters.describe(),
        "          Performance\n     ast: 0ms (0 invocations)\n   vague: 0ms (0 invocations)\nresolved: 7ms (1 invocations)\n trivial: 0ms (0 invocations)\n  llvmir: 0ms (0 invocations)"
    );
}

#[test]
fn counters_start_at_zero() {
    let mut compiler = Compiler::new();
    compiler.add_source("main.wg".to_owned(), "".to_owned());
    compiler.set_error_width(40);
    let counters = compiler.borrow_performance_counters();
    for counter in [counters.ast, counters.vague, counters.resolved, counters.trivial, counters.llvmir] {
        assert_eq!(counter.time, 0);
        assert_eq!(counter.num_invocations, 0);
    }
}
