use lvm::loader::LoadErrorKind;
use lvm::semantics::{Effect, FloatOp, VmErrorKind};
use lvm::vm::LVM;

fn float_result(op: FloatOp, a: u64, b: u64) -> u64 {
    let x = f64::from_bits(a);
    let y = f64::from_bits(b);
    let flag = |c: bool| if c { 1u64 } else { 0u64 };
    match op {
        FloatOp::Inc => (x + 1.0).to_bits(),
        FloatOp::Dec => (x - 1.0).to_bits(),
        FloatOp::Add => (x + y).to_bits(),
        FloatOp::Sub => (x - y).to_bits(),
        FloatOp::Mul => (x * y).to_bits(),
        FloatOp::Div => (x / y).to_bits(),
        FloatOp::Rem => (x % y).to_bits(),
        FloatOp::Eq => flag(x == y),
        FloatOp::Neq => flag(x != y),
        FloatOp::Lt => flag(x < y),
        FloatOp::Gt => flag(x > y),
        FloatOp::Lte => flag(x <= y),
        FloatOp::Gte => flag(x >= y),
        FloatOp::FromUnt => (a as f64).to_bits(),
        FloatOp::FromInt => (a as i64 as f64).to_bits(),
        FloatOp::ToInt => (x.trunc() as i64) as u64,
        FloatOp::ToUnt => x.trunc() as u64,
    }
}

struct Outcome {
    lines: Vec<String>,
    halt: Option<i32>,
    error: Option<VmErrorKind>,
    vm: LVM,
}

fn run_with_input(src: &str, input: &[&str]) -> Outcome {
    let mut vm = LVM::new("test.lbc".to_string());
    vm.parse_and_load(src).expect("program loads");
    vm.start().expect("program has main");
    let mut lines = Vec::new();
    let mut input = input.iter();
    loop {
        match vm.run(100_000) {
            Err(e) => {
                return Outcome { lines, halt: None, error: Some(e.kind), vm };
            },
            Ok(None) => {
                return Outcome { lines, halt: None, error: None, vm };
            },
            Ok(Some(effect)) => match effect {
                Effect::Continue | Effect::Sleep(_) => {},
                Effect::Print(b) => lines.push(String::from_utf8_lossy(&b).into_owned()),
                Effect::PrintFloat(bits) => lines.push(format!("{}", f64::from_bits(bits))),
                Effect::Float { op, a, b } => vm.push_u64(float_result(op, a, b)),
                Effect::ParseFloat(lit) => {
                    let text = String::from_utf8_lossy(&lit).into_owned();
                    vm.push_u64(text.parse::<f64>().unwrap().to_bits());
                },
                Effect::Input(tag) => {
                    let line = input.next().expect("input line");
                    vm.provide_input(tag, line.as_bytes()).expect("input accepted");
                },
                Effect::Halt(code) => {
                    return Outcome { lines, halt: Some(code), error: None, vm };
                },
            },
        }
    }
}

fn run(src: &str) -> Outcome {
    run_with_input(src, &[])
}

#[test]
fn hello() {
    let o = run("label main\npush_const str \"hi\"\nprint str\nhalt 0\n");
    assert_eq!(o.lines, vec!["hi"]);
    assert_eq!(o.halt, Some(0));
}

#[test]
fn signed_arithmetic() {
    let o = run("label main\npush_const int 7\npush_const int -3\ni_add\nprint int\nhalt 0\n");
    assert_eq!(o.lines, vec!["4"]);
}

#[test]
fn counted_loop() {
    let src = "label main\npush_const int 0\nstore_var i\nlabel L\nload_var i\npush_const int 3\ni_lt\njump_if_false E\nload_var i\ni_inc\nstore_var i\njump L\nlabel E\nload_var i\nprint int\nhalt 0\n";
    let o = run(src);
    assert_eq!(o.lines, vec!["3"]);
}

#[test]
fn string_concat() {
    let o = run("label main\npush_const str \"foo\"\npush_const str \"bar\"\nstr_add\nprint ref\nhalt 0\n");
    assert_eq!(o.lines, vec!["foobar"]);
}

#[test]
fn indirect_call() {
    let src = "label F\npush_const str \"ok\"\nprint str\nret\nlabel main\npush_const lambda F\ncall_dynamic\nhalt 0\n";
    let o = run(src);
    assert_eq!(o.lines, vec!["ok"]);
}

#[test]
fn object_method() {
    let src = "\
jump main
class P
field x
method show P_show
end_class
label P_show
load_this
load_field x
print int
ret
label P_init
store_var self
load_var self
ret
label main
new P P_init
store_var self
push_const int 42
load_var self
set_field x
load_var self
call_method show
halt 0
";
    let o = run(src);
    assert_eq!(o.error, None);
    assert_eq!(o.lines, vec!["42"]);
}

#[test]
fn object_printed_by_ref() {
    let src = "class P\nfield x\nfield y\nend_class\nlabel init\nret\nlabel main\nnew P init\nstore_var o\npush_const int 5\nload_var o\nset_field y\nload_var o\nprint ref\nhalt 0\n";
    let o = run(src);
    assert_eq!(o.lines, vec!["P { f0: 0, f1: 5 }"]);
}

#[test]
fn field_outside_class_fails() {
    let src = "class P\nfield x\nend_class\nlabel init\nret\nlabel main\nnew P init\nstore_var o\npush_const int 1\nload_var o\nset_field z\nhalt 0\n";
    let o = run(src);
    assert_eq!(o.error, Some(VmErrorKind::UndefinedField));
}

#[test]
fn field_set_then_load() {
    let src = "class C\nfield a\nfield b\nend_class\nlabel init\nret\nlabel main\nnew C init\nstore_var o\npush_const unt 99\nload_var o\nset_field b\nload_var o\nload_field b\nprint unt\nhalt 0\n";
    let o = run(src);
    assert_eq!(o.lines, vec!["99"]);
}

#[test]
fn call_ret_restores_depths() {
    let src = "label main\npush_const int 9\ncall G\nhalt\nlabel G\npush_const int 5\nstore_var t\nret\n";
    let mut vm = LVM::new("t".to_string());
    vm.parse_and_load(src).unwrap();
    vm.start().unwrap();
    // push_const int 9
    vm.execute().unwrap();
    let depth = vm.stack.len();
    let frames = vm.frame_stack.len();
    // call G, then its balanced body, then ret
    for _ in 0..4 {
        vm.execute().unwrap();
    }
    assert_eq!(vm.stack.len(), depth);
    assert_eq!(vm.frame_stack.len(), frames);
    assert_eq!(vm.call_stack.len(), 0);
}

#[test]
fn cast_int_unt_round_trip() {
    let o = run("label main\npush_const int -1\ncast int unt\nprint unt\npush_const int -5\ncast int unt\ncast unt int\nprint int\nhalt 0\n");
    assert_eq!(o.lines, vec!["18446744073709551615", "-5"]);
}

#[test]
fn cast_int_float_round_trip() {
    let o = run("label main\npush_const int 9007199254740992\ncast int float\ncast float int\nprint int\npush_const int -9007199254740992\ncast int float\ncast float int\nprint int\nhalt 0\n");
    assert_eq!(o.lines, vec!["9007199254740992", "-9007199254740992"]);
}

#[test]
fn unsupported_cast_fails() {
    let o = run("label main\npush_const int 1\ncast int str\nhalt 0\n");
    assert_eq!(o.error, Some(VmErrorKind::BadCast));
}

#[test]
fn float_slot_round_trip() {
    let v: u64 = 4614253070214989087; // bits of 3.14
    let src = format!("label main\npush_const unt {}\npush_const float 0.0\nf_add\nprint unt\nhalt 0\n", v);
    let o = run(&src);
    assert_eq!(o.lines, vec![v.to_string()]);
}

#[test]
fn array_get_at_length_fails() {
    let o = run("label main\npush_const unt 3\nnew_array\nstore_var a\npush_const unt 3\nload_var a\narray_get\nhalt 0\n");
    assert_eq!(o.error, Some(VmErrorKind::OutOfBounds));
}

#[test]
fn array_set_at_length_fails() {
    let o = run("label main\npush_const unt 3\nnew_array\nstore_var a\npush_const unt 7\npush_const unt 3\nload_var a\narray_set\nhalt 0\n");
    assert_eq!(o.error, Some(VmErrorKind::OutOfBounds));
}

#[test]
fn array_last_index_succeeds() {
    let src = "label main\npush_const unt 3\nnew_array\nstore_var a\npush_const unt 7\npush_const unt 2\nload_var a\narray_set\npush_const unt 2\nload_var a\narray_get\nprint unt\nload_var a\nprint ref\nload_var a\narray_len\nprint unt\nhalt 0\n";
    let o = run(src);
    assert_eq!(o.lines, vec!["7", "[0, 0, 7]", "3"]);
}

#[test]
fn string_index_bounds() {
    let o = run("label main\npush_const str \"abc\"\nstore_var s\npush_const unt 2\nload_var s\nstr_get\nprint char\npush_const unt 3\nload_var s\nstr_get\nhalt 0\n");
    assert_eq!(o.lines, vec!["c"]);
    assert_eq!(o.error, Some(VmErrorKind::OutOfBounds));
}

#[test]
fn string_operations() {
    let src = "label main\npush_const str \"Hello World\"\nstr_upper\nprint ref\npush_const str \"MiXeD\"\nstr_lower\nprint ref\npush_const str \"ab\"\nstr_len\nprint unt\npush_const str \"ab\"\npush_const str \"ab\"\nstr_eq\nprint unt\npush_const str \"ab\"\npush_const str \"abc\"\nstr_neq\nprint unt\npush_const str \"AB\"\nstr_bytes\nprint ref\nhalt 0\n";
    let o = run(src);
    assert_eq!(o.lines, vec!["HELLO WORLD", "mixed", "2", "1", "1", "[65, 66]"]);
}

#[test]
fn string_set_changes_byte() {
    let src = "label main\npush_const str \"cat\"\nstore_var s\npush_const unt 98\npush_const unt 0\nload_var s\nstr_set\nload_var s\nprint ref\npush_const unt 300\npush_const unt 0\nload_var s\nstr_set\nhalt 0\n";
    let o = run(src);
    assert_eq!(o.lines, vec!["bat"]);
    assert_eq!(o.error, Some(VmErrorKind::ByteTooLarge));
}

#[test]
fn unsigned_arithmetic_and_compare() {
    let src = "label main\npush_const unt 10\npush_const unt 3\nu_mod\nprint unt\npush_const unt 10\npush_const unt 3\nu_div\nprint unt\npush_const unt 0\nu_dec\nprint unt\npush_const unt 2\npush_const unt 5\nu_lt\nprint unt\npush_const unt 1\npush_const unt 0\nand\nprint unt\npush_const unt 1\nnot\nprint unt\nhalt 0\n";
    let o = run(src);
    assert_eq!(o.lines, vec!["1", "3", "18446744073709551615", "1", "0", "0"]);
}

#[test]
fn signed_division_and_remainder() {
    let o = run("label main\npush_const int -7\npush_const int 2\ni_div\nprint int\npush_const int -7\npush_const int 2\ni_mod\nprint int\nhalt 0\n");
    assert_eq!(o.lines, vec!["-3", "-1"]);
}

#[test]
fn division_by_zero_fails() {
    let o = run("label main\npush_const unt 1\npush_const unt 0\nu_div\nhalt 0\n");
    assert_eq!(o.error, Some(VmErrorKind::DivisionByZero));
}

#[test]
fn signed_division_overflow_fails() {
    let o = run("label main\npush_const int -9223372036854775808\npush_const int -1\ni_div\nhalt 0\n");
    assert_eq!(o.error, Some(VmErrorKind::Overflow));
}

#[test]
fn float_arithmetic_printed() {
    let o = run("label main\npush_const float 1.5\npush_const float 2.25\nf_add\nprint float\npush_const float 2.0\npush_const float 1.0\nf_gt\nprint unt\nhalt 0\n");
    assert_eq!(o.lines, vec!["3.75", "1"]);
}

#[test]
fn print_on_empty_stack_is_blank() {
    let o = run("label main\nprint\nhalt 0\n");
    assert_eq!(o.lines, vec![""]);
}

#[test]
fn halt_takes_code_from_stack() {
    let o = run("label main\npush_const int 3\nhalt\n");
    assert_eq!(o.halt, Some(3));
    let o = run("label main\nhalt 7\n");
    assert_eq!(o.halt, Some(7));
    let o = run("label main\nhalt\n");
    assert_eq!(o.halt, Some(0));
}

#[test]
fn running_off_the_end_stops() {
    let o = run("label main\npush_const int 1\n");
    assert_eq!(o.halt, None);
    assert_eq!(o.error, None);
    assert_eq!(o.vm.stack, vec![1]);
}

#[test]
fn empty_stack_pop_fails() {
    let o = run("label main\ni_add\n");
    assert_eq!(o.error, Some(VmErrorKind::StackUnderflow));
}

#[test]
fn ret_without_call_fails() {
    let o = run("label main\nret\n");
    assert_eq!(o.error, Some(VmErrorKind::EmptyCallStack));
}

#[test]
fn undefined_variable_fails() {
    let o = run("label main\nload_var nope\n");
    assert_eq!(o.error, Some(VmErrorKind::UndefinedVariable));
}

#[test]
fn free_releases_entry() {
    let o = run("label main\npush_const str \"x\"\nstore_var s\nfree s\nload_var s\n");
    assert_eq!(o.error, Some(VmErrorKind::UndefinedVariable));
    assert!(o.vm.heap.entries[0].is_none());
}

#[test]
fn clone_copies_entry() {
    let o = run("label main\npush_const str \"ab\"\nclone\nprint ref\nhalt 0\n");
    assert_eq!(o.lines, vec!["ab"]);
    assert_eq!(o.vm.heap.entries.len(), 2);
}

#[test]
fn unknown_instruction_fails() {
    let o = run("label main\nfrobnicate\n");
    assert_eq!(o.error, Some(VmErrorKind::UnknownInstruction));
}

#[test]
fn load_this_outside_method_fails() {
    let o = run("label main\nload_this\n");
    assert_eq!(o.error, Some(VmErrorKind::NoThis));
}

#[test]
fn input_reads_typed_lines() {
    let o = run_with_input("label main\ninput int\ninput str\nprint ref\nprint int\nhalt 0\n", &["  -12 ", "word"]);
    assert_eq!(o.lines, vec!["word", "-12"]);
}

#[test]
fn jump_if_null_and_true() {
    let src = "label main\npush_const unt 0\njump_if_null A\npush_const str \"no\"\nprint str\nlabel A\npush_const unt 1\njump_if_true B\npush_const str \"no\"\nprint str\nlabel B\npush_const str \"yes\"\nprint str\nhalt 0\n";
    let o = run(src);
    assert_eq!(o.lines, vec!["yes"]);
}

#[test]
fn missing_main_fails() {
    let mut vm = LVM::new("t".to_string());
    vm.parse_and_load("label start\nhalt 0\n").unwrap();
    assert_eq!(vm.start().unwrap_err().kind, VmErrorKind::NoMain);
}

#[test]
fn duplicate_label_in_program_fails_to_load() {
    let mut vm = LVM::new("t".to_string());
    let e = vm.parse_and_load("label a\nlabel a:\n").unwrap_err();
    assert_eq!(e.kind, LoadErrorKind::DuplicateLabel);
    assert_eq!(e.line_idx, 1);
}

#[test]
fn wrong_arity_fails() {
    let o = run("label main\npush_const int\n");
    assert_eq!(o.error, Some(VmErrorKind::Arity));
}

#[test]
fn unknown_type_tag_fails() {
    let o = run("label main\npush_const bool 1\n");
    assert_eq!(o.error, Some(VmErrorKind::UnknownType));
}

#[test]
fn bad_literal_fails() {
    let o = run("label main\npush_const unt -1\n");
    assert_eq!(o.error, Some(VmErrorKind::BadLiteral));
    let o = run("label main\npush_const int 9223372036854775808\n");
    assert_eq!(o.error, Some(VmErrorKind::BadLiteral));
}

#[test]
fn undefined_label_fails() {
    let o = run("label main\njump nowhere\n");
    assert_eq!(o.error, Some(VmErrorKind::UndefinedLabel));
}

#[test]
fn undefined_class_fails() {
    let o = run("label init\nret\nlabel main\nnew Ghost init\n");
    assert_eq!(o.error, Some(VmErrorKind::UndefinedClass));
}

#[test]
fn undefined_method_fails() {
    let o = run("class P\nend_class\nlabel init\nret\nlabel main\nnew P init\nstore_var o\nload_var o\ncall_method nope\n");
    assert_eq!(o.error, Some(VmErrorKind::UndefinedMethod));
}

#[test]
fn unclosed_class_block_fails() {
    let o = run("label init\nret\nlabel main\nnew P init\nclass P\nfield x\n");
    assert_eq!(o.error, Some(VmErrorKind::BadClassBlock));
}

#[test]
fn dangling_reference_fails() {
    let o = run("label main\npush_const unt 42\nprint ref\n");
    assert_eq!(o.error, Some(VmErrorKind::DanglingRef));
}

#[test]
fn wrong_heap_kind_fails() {
    let o = run("label main\npush_const str \"s\"\narray_len\n");
    assert_eq!(o.error, Some(VmErrorKind::WrongKind));
}

#[test]
fn array_too_long_fails() {
    let o = run("label main\npush_const unt 2147483648\nnew_array\n");
    assert_eq!(o.error, Some(VmErrorKind::ArrayTooLong));
}

#[test]
fn struct_fields_on_declaration_line() {
    let src = "struct S: a b\nend_class\nlabel init\nret\nlabel main\nnew S init\nstore_var o\npush_const unt 4\nload_var o\nset_field b\nload_var o\nprint ref\nhalt 0\n";
    let o = run(src);
    assert_eq!(o.lines, vec!["S { f0: 0, f1: 4 }"]);
}

#[test]
fn print_char_and_signed() {
    let o = run("label main\npush_const unt 65\nprint char\npush_const int -42\nprint int\npush_const unt 233\nprint char\nhalt 0\n");
    assert_eq!(o.lines, vec!["A", "-42", "é"]);
}

#[test]
fn ret_restores_current_object() {
    let src = "\
class A
method outer A_outer
end_class
class B
method inner B_inner
end_class
label init
ret
label B_inner
ret
label A_outer
load_this
store_var me
new B init
call_method inner
load_this
load_var me
u_eq
print unt
ret
label main
new A init
call_method outer
load_this
";
    let o = run(src);
    assert_eq!(o.lines, vec!["1"]);
    assert_eq!(o.error, Some(VmErrorKind::NoThis));
}

#[test]
fn failed_array_set_leaves_heap() {
    let o = run("label main\npush_const unt 2\nnew_array\nstore_var a\npush_const unt 7\npush_const unt 2\nload_var a\narray_set\n");
    assert_eq!(o.error, Some(VmErrorKind::OutOfBounds));
    assert_eq!(o.vm.heap.entries.len(), 1);
    match &o.vm.heap.entries[0] {
        Some(lvm::heap::HeapValue::Array(a)) => assert_eq!(a, &vec![0, 0]),
        _ => panic!("array expected"),
    }
}

#[test]
fn oversized_array_allocates_nothing() {
    let o = run("label main\npush_const unt 2147483648\nnew_array\n");
    assert_eq!(o.error, Some(VmErrorKind::ArrayTooLong));
    assert!(o.vm.heap.entries.is_empty());
}

#[test]
fn new_with_unknown_class_leaves_tables() {
    let o = run("label init\nret\nlabel main\nnew Ghost init\n");
    assert_eq!(o.error, Some(VmErrorKind::UndefinedClass));
    assert!(o.vm.classes.is_empty());
    assert!(o.vm.heap.entries.is_empty());
}

#[test]
fn unicode_whitespace_separates_tokens() {
    let o = run("label main\n\u{3000}push_const\u{a0}int\u{2003}5\u{85}\nprint int\nhalt 0\n");
    assert_eq!(o.lines, vec!["5"]);
}

#[test]
fn load_error_reports_line() {
    let mut vm = LVM::new("prog.lbc".to_string());
    let e = vm.parse_and_load("label main\nlabel x y\n").unwrap_err();
    assert_eq!(e.kind, LoadErrorKind::LabelArity);
    assert_eq!(e.path, "prog.lbc");
    assert_eq!(e.line_idx, 1);
    assert_eq!(e.raw, b"label x y".to_vec());
}
