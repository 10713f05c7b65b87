use lvm::hash::{class_hash, opcode_hash};
use lvm::heap::{Heap, HeapValue};
use lvm::loader::{collect_classes, collect_labels, parse, tokenize, LoadErrorKind};
use lvm::opcodes;

#[test]
fn opcode_hashes_match_dispatch_keys() {
    let table: Vec<(&str, u32)> = vec![
        ("push_const", opcodes::OP_PUSH_CONST), ("label", opcodes::OP_LABEL), ("jump", opcodes::OP_JUMP),
        ("jump_if_true", opcodes::OP_JUMP_IF_TRUE), ("jump_if_false", opcodes::OP_JUMP_IF_FALSE),
        ("jump_if_null", opcodes::OP_JUMP_IF_NULL), ("call", opcodes::OP_CALL),
        ("call_dynamic", opcodes::OP_CALL_DYNAMIC), ("ret", opcodes::OP_RET), ("halt", opcodes::OP_HALT),
        ("sleep", opcodes::OP_SLEEP), ("u_inc", opcodes::OP_U_INC), ("u_dec", opcodes::OP_U_DEC),
        ("i_inc", opcodes::OP_I_INC), ("i_dec", opcodes::OP_I_DEC), ("f_inc", opcodes::OP_F_INC),
        ("f_dec", opcodes::OP_F_DEC), ("u_add", opcodes::OP_U_ADD), ("u_sub", opcodes::OP_U_SUB),
        ("u_mul", opcodes::OP_U_MUL), ("u_div", opcodes::OP_U_DIV), ("u_mod", opcodes::OP_U_MOD),
        ("i_add", opcodes::OP_I_ADD), ("i_sub", opcodes::OP_I_SUB), ("i_mul", opcodes::OP_I_MUL),
        ("i_div", opcodes::OP_I_DIV), ("i_mod", opcodes::OP_I_MOD), ("f_add", opcodes::OP_F_ADD),
        ("f_sub", opcodes::OP_F_SUB), ("f_mul", opcodes::OP_F_MUL), ("f_div", opcodes::OP_F_DIV),
        ("f_mod", opcodes::OP_F_MOD), ("u_eq", opcodes::OP_U_EQ), ("u_neq", opcodes::OP_U_NEQ),
        ("u_lt", opcodes::OP_U_LT), ("u_gt", opcodes::OP_U_GT), ("u_lte", opcodes::OP_U_LTE),
        ("u_gte", opcodes::OP_U_GTE), ("i_eq", opcodes::OP_I_EQ), ("i_neq", opcodes::OP_I_NEQ),
        ("i_lt", opcodes::OP_I_LT), ("i_gt", opcodes::OP_I_GT), ("i_lte", opcodes::OP_I_LTE),
        ("i_gte", opcodes::OP_I_GTE), ("f_eq", opcodes::OP_F_EQ), ("f_neq", opcodes::OP_F_NEQ),
        ("f_lt", opcodes::OP_F_LT), ("f_gt", opcodes::OP_F_GT), ("f_lte", opcodes::OP_F_LTE),
        ("f_gte", opcodes::OP_F_GTE), ("and", opcodes::OP_AND), ("or", opcodes::OP_OR),
        ("not", opcodes::OP_NOT), ("str_add", opcodes::OP_STR_ADD), ("str_len", opcodes::OP_STR_LEN),
        ("str_get", opcodes::OP_STR_GET), ("str_set", opcodes::OP_STR_SET),
        ("str_bytes", opcodes::OP_STR_BYTES), ("str_upper", opcodes::OP_STR_UPPER),
        ("str_lower", opcodes::OP_STR_LOWER), ("str_eq", opcodes::OP_STR_EQ),
        ("str_neq", opcodes::OP_STR_NEQ), ("cast", opcodes::OP_CAST), ("store_var", opcodes::OP_STORE_VAR),
        ("load_var", opcodes::OP_LOAD_VAR), ("free", opcodes::OP_FREE), ("clone", opcodes::OP_CLONE),
        ("print", opcodes::OP_PRINT), ("input", opcodes::OP_INPUT), ("new", opcodes::OP_NEW),
        ("set_field", opcodes::OP_SET_FIELD), ("load_field", opcodes::OP_LOAD_FIELD),
        ("call_method", opcodes::OP_CALL_METHOD), ("load_this", opcodes::OP_LOAD_THIS),
        ("new_array", opcodes::OP_NEW_ARRAY), ("array_set", opcodes::OP_ARRAY_SET),
        ("array_get", opcodes::OP_ARRAY_GET), ("array_len", opcodes::OP_ARRAY_LEN),
        ("struct", opcodes::OP_STRUCT), ("class", opcodes::OP_CLASS), ("field", opcodes::OP_FIELD),
        ("method", opcodes::OP_METHOD), ("end_class", opcodes::OP_END_CLASS),
        ("unt", opcodes::TAG_UNT), ("int", opcodes::TAG_INT), ("float", opcodes::TAG_FLOAT),
        ("str", opcodes::TAG_STR), ("lambda", opcodes::TAG_LAMBDA), ("char", opcodes::TAG_CHAR),
        ("ref", opcodes::TAG_REF),
    ];
    for (name, key) in table {
        assert_eq!(opcode_hash(name), key, "{}", name);
    }
}

#[test]
fn opcode_hash_known_values() {
    assert_eq!(opcode_hash(""), 0x811c9dc5);
    assert_eq!(opcode_hash("push_const"), 3362566317);
    assert_eq!(opcode_hash("label"), 4137097213);
    assert_eq!(opcode_hash("a"), 0xe40c292c);
}

#[test]
fn class_hash_known_values() {
    assert_eq!(class_hash(""), 0xcbf29ce484222325);
    assert_eq!(class_hash("a"), 0x8e22fe9168630f48);
    assert_eq!(class_hash("foobar"), 0x8c8995a137e13bc0);
}

#[test]
fn parse_strips_comments_and_blank_lines() {
    let src = "  # only a comment\n\nLABEL main: ; trailing\npush_const str \"a b\" // note\n   \n";
    let ins = parse("p.lbc", src.to_string()).unwrap();
    assert_eq!(ins.len(), 2);
    assert_eq!(ins[0].op, opcodes::OP_LABEL);
    assert_eq!(ins[0].args, vec![b"main:".to_vec()]);
    assert_eq!(ins[0].line_idx, 2);
    assert_eq!(ins[1].op, opcodes::OP_PUSH_CONST);
    assert_eq!(ins[1].args, vec![b"str".to_vec(), b"\"a b\"".to_vec()]);
    assert_eq!(ins[1].line_idx, 3);
    assert_eq!(ins[1].raw, b"push_const str \"a b\" // note".to_vec());
}

#[test]
fn parse_cuts_at_first_marker() {
    let ins = parse("t", "halt 0 ; done # x\n".to_string()).unwrap();
    assert_eq!(ins.len(), 1);
    assert_eq!(ins[0].args, vec![b"0".to_vec()]);
    let ins = parse("t", "a ; \" # \"\n".to_string()).unwrap();
    assert_eq!(ins.len(), 1);
    assert!(ins[0].args.is_empty());
    let ins = parse("t", "halt 1 // c ; d\n".to_string()).unwrap();
    assert_eq!(ins[0].args, vec![b"1".to_vec()]);
}

#[test]
fn quote_opened_before_comment_is_fatal() {
    let e = parse("t", "a \"x;\" # \"\n".to_string()).unwrap_err();
    assert_eq!(e.kind, LoadErrorKind::UnterminatedQuote);
    assert_eq!(e.raw, b"a \"x;\" # \"".to_vec());
}

#[test]
fn parse_rejects_unterminated_quote() {
    let e = parse("p.lbc", "label main\npush_const str \"oops\n".to_string()).unwrap_err();
    assert_eq!(e.kind, LoadErrorKind::UnterminatedQuote);
    assert_eq!(e.line_idx, 1);
    assert_eq!(e.path, "p.lbc");
}

#[test]
fn parse_empty_source() {
    assert!(parse("p", String::new()).unwrap().is_empty());
}

#[test]
fn parse_crlf_lines() {
    let ins = parse("p", "label main\r\nhalt 0\r\n".to_string()).unwrap();
    assert_eq!(ins.len(), 2);
    assert_eq!(ins[1].raw, b"halt 0".to_vec());
}

#[test]
fn tokenize_keeps_quotes_glued() {
    let t = tokenize(b"a \"b c\"d  e").unwrap();
    assert_eq!(t, vec![b"a".to_vec(), b"\"b c\"d".to_vec(), b"e".to_vec()]);
    assert!(tokenize(b"x \"y").is_none());
}

#[test]
fn duplicate_labels_fail() {
    let ins = parse("p", "label a\nhalt\nlabel a:\n".to_string()).unwrap();
    let e = collect_labels("p", &ins).unwrap_err();
    assert_eq!(e.kind, LoadErrorKind::DuplicateLabel);
    assert_eq!(e.line_idx, 2);
}

#[test]
fn labels_recorded_with_index() {
    let ins = parse("p", "jump main\nlabel f:\nret\nlabel main\n".to_string()).unwrap();
    let t = collect_labels("p", &ins).unwrap();
    assert_eq!(t, vec![(b"f".to_vec(), 1), (b"main".to_vec(), 3)]);
}

#[test]
fn label_arity_fails() {
    let ins = parse("p", "label a b\n".to_string()).unwrap();
    assert_eq!(collect_labels("p", &ins).unwrap_err().kind, LoadErrorKind::LabelArity);
}

#[test]
fn classes_recorded_and_duplicates_fail() {
    let ins = parse("p", "struct P: x\nend_class\nclass Q\nend_class\n".to_string()).unwrap();
    let t = collect_classes("p", &ins).unwrap();
    assert_eq!(t, vec![(b"P".to_vec(), 0), (b"Q".to_vec(), 2)]);
    let ins = parse("p", "class P\nend_class\nstruct P:\n".to_string()).unwrap();
    assert_eq!(collect_classes("p", &ins).unwrap_err().kind, LoadErrorKind::DuplicateClass);
    let ins = parse("p", "class\n".to_string()).unwrap();
    assert_eq!(collect_classes("p", &ins).unwrap_err().kind, LoadErrorKind::ClassArity);
}

#[test]
fn heap_ids_count_allocations() {
    let mut h = Heap::new();
    let mut last = 0;
    for i in 0..5u64 {
        last = h.allocate(HeapValue::Num(i));
    }
    assert_eq!(last, 5);
    assert!(h.free(3));
    assert!(!h.free(3));
    assert_eq!(h.allocate(HeapValue::Num(9)), 6);
}

#[test]
fn trim_handles_unicode_spaces() {
    let ins = parse("p", "\u{a0} halt\u{2028}7 \u{3000}\n".to_string()).unwrap();
    assert_eq!(ins.len(), 1);
    assert_eq!(ins[0].op, opcodes::OP_HALT);
    assert_eq!(ins[0].args, vec![b"7".to_vec()]);
}
