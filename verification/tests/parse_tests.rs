use headerdoc::parser::{block_warnings, parse_doc_block, parse_enum_sig, parse_struct_sig, try_parse_doc_block};
use headerdoc::scanner::get_doc_blocks;
use headerdoc::types::{DocBlock, DocItem, EnumItem, StructItem};

fn chars(s: &str) -> Vec<char> {
    s.chars().collect()
}

fn block(doc: &str, signature: &str) -> DocBlock {
    DocBlock { doc: doc.to_string(), signature: signature.to_string() }
}

#[test]
fn function_block_is_parsed() {
    let b = block(
        "* @brief Adds two numbers.\n*\n* Longer text here.\n* @param a first\n* @param b second\n* @return the sum\n*/\n",
        "int add(int a, int b);\n",
    );
    match parse_doc_block(&b) {
        Some(DocItem::Function(f)) => {
            assert_eq!(f.meta.signature, "int add(int a, int b);");
            assert_eq!(f.meta.identifier.original, "add");
            assert_eq!(f.meta.identifier.alias, "add");
            assert_eq!(f.meta.short_desc, "Adds two numbers.");
            assert_eq!(f.meta.long_desc, "Longer text here.");
            assert_eq!(f.params.len(), 2);
            assert_eq!(f.params[0].decl_type, "int");
            assert_eq!(f.params[0].name, "a");
            assert_eq!(f.params[0].desc, "first");
            assert_eq!(f.params[1].decl_type, "int");
            assert_eq!(f.params[1].name, "b");
            assert_eq!(f.params[1].desc, "second");
            assert_eq!(f.ret.decl_type, "int");
            assert_eq!(f.ret.desc, "the sum");
        }
        _ => panic!("expected a function"),
    }
}

#[test]
fn pointer_types_move_to_the_type() {
    let b = block("* @brief Copies.\n* @param s source\n* @return a copy\n*/\n", "char *dup(const char *s);\n");
    match parse_doc_block(&b) {
        Some(DocItem::Function(f)) => {
            assert_eq!(f.meta.identifier.alias, "dup");
            assert_eq!(f.ret.decl_type, "char *");
            assert_eq!(f.params.len(), 1);
            assert_eq!(f.params[0].decl_type, "const char *");
            assert_eq!(f.params[0].name, "s");
        }
        _ => panic!("expected a function"),
    }
}

#[test]
fn mismatched_parameter_name_keeps_empty_type() {
    let b = block("* @param x the x\n*/\n", "void f(int y);\n");
    match parse_doc_block(&b) {
        Some(DocItem::Function(f)) => {
            assert_eq!(f.params.len(), 1);
            assert_eq!(f.params[0].name, "x");
            assert_eq!(f.params[0].decl_type, "");
            assert_eq!(f.ret.decl_type, "void");
        }
        _ => panic!("expected a function"),
    }
}

#[test]
fn parameter_without_description_is_dropped() {
    let b = block("* @param x\n*/\n", "void f(int x);\n");
    match parse_doc_block(&b) {
        Some(DocItem::Function(f)) => assert_eq!(f.params.len(), 0),
        _ => panic!("expected a function"),
    }
}

#[test]
fn unknown_tag_continues_the_open_tag() {
    let b = block("* @brief first\n* @foo second part\n*/\n", "void g(void);\n");
    match parse_doc_block(&b) {
        Some(DocItem::Function(f)) => assert_eq!(f.meta.short_desc, "second part"),
        _ => panic!("expected a function"),
    }
}

#[test]
fn meta_tags_are_stored() {
    let b = block(
        "* @brief B\n* @note n1\n* @note n2\n* @see other() does more\n* @author Ann\n* @since 1.0\n* @version 2.0\n* @date 2024-01-01\n*/\n",
        "void h(void);\n",
    );
    match parse_doc_block(&b) {
        Some(DocItem::Function(f)) => {
            assert_eq!(f.meta.short_desc, "B");
            assert_eq!(f.meta.notes, vec!["n1".to_string(), "n2".to_string()]);
            assert_eq!(f.meta.references.len(), 1);
            assert_eq!(f.meta.references[0].subject, "other()");
            assert_eq!(f.meta.references[0].desc, "does more");
            assert_eq!(f.meta.author, "Ann");
            assert_eq!(f.meta.since_ver, "1.0");
            assert_eq!(f.meta.latest_ver, "2.0");
            assert_eq!(f.meta.created_date, "2024-01-01");
        }
        _ => panic!("expected a function"),
    }
}

#[test]
fn angle_brackets_are_escaped() {
    let b = block("* @brief Returns <T>\n*/\n", "int  a<b>(void);  \n");
    match parse_doc_block(&b) {
        Some(DocItem::Function(f)) => {
            assert_eq!(f.meta.short_desc, "Returns \\<T\\>");
            assert_eq!(f.meta.signature, "int  a\\<b\\>(void);");
            assert_eq!(f.meta.identifier.alias, "a\\<b\\>");
        }
        _ => panic!("expected a function"),
    }
}

#[test]
fn enum_block_is_parsed() {
    let b = block(
        "* @brief Colors.\n* @since 1.0\n* @version 1.2\n*/\n",
        "typedef enum color {\nRED, /**< red color */\nGREEN = 5, /**< green */\nBLUE /**< blue */\n} Color;\n",
    );
    match parse_doc_block(&b) {
        Some(DocItem::Enum(e)) => {
            assert_eq!(e.meta.identifier.original, "color");
            assert_eq!(e.meta.identifier.alias, "Color");
            assert_eq!(e.meta.short_desc, "Colors.");
            assert_eq!(e.meta.since_ver, "1.0");
            assert_eq!(e.meta.latest_ver, "1.2");
            assert_eq!(
                e.meta.signature,
                "typedef enum color {\nRED, /**\\< red color */\nGREEN = 5, /**\\< green */\nBLUE /**\\< blue */\n} Color;"
            );
            // The declaration is escaped before it is read, so no `/**<` is left in it.
            assert_eq!(e.members.len(), 0);
        }
        _ => panic!("expected an enumeration"),
    }
}

#[test]
fn enum_declaration_members() {
    let sig = chars("typedef enum color {\nRED, /**< red color */\nGREEN = 5, /**< green */\nBLUE /**< blue */\n} Color;");
    let e = parse_enum_sig(&sig, EnumItem::default()).expect("readable declaration");
    assert_eq!(e.meta.identifier.original, "color");
    assert_eq!(e.meta.identifier.alias, "Color");
    assert_eq!(e.members.len(), 3);
    assert_eq!(e.members[0].name, "RED");
    assert_eq!(e.members[0].value, "0");
    assert_eq!(e.members[0].desc, "red color");
    assert_eq!(e.members[1].name, "GREEN ");
    assert_eq!(e.members[1].value, "5");
    assert_eq!(e.members[1].desc, "green");
    assert_eq!(e.members[2].name, "BLUE");
    assert_eq!(e.members[2].value, "2");
    assert_eq!(e.members[2].desc, "blue");
}

#[test]
fn enum_members_past_nine_get_two_digits() {
    let mut sig = String::from("typedef enum {\n");
    for i in 0..12 {
        sig.push_str(&format!("M{}, /**< m */\n", i));
    }
    sig.push_str("} Many;");
    let e = parse_enum_sig(&chars(&sig), EnumItem::default()).expect("readable declaration");
    assert_eq!(e.members.len(), 12);
    assert_eq!(e.members[11].name, "M11");
    assert_eq!(e.members[11].value, "11");
    assert_eq!(e.meta.identifier.original, "");
    assert_eq!(e.meta.identifier.alias, "Many");
}

#[test]
fn struct_block_is_parsed() {
    let b = block(
        "* @brief A point.\n* @note Immutable.\n* @see make_point() creates one\n*/\n",
        "typedef struct point {\nint x; /**< x coord */\nchar *name; /**< label */\n} Point;\n",
    );
    match parse_doc_block(&b) {
        Some(DocItem::Struct(s)) => {
            assert_eq!(s.meta.identifier.original, "point");
            assert_eq!(s.meta.identifier.alias, "Point");
            assert_eq!(s.meta.notes, vec!["Immutable.".to_string()]);
            assert_eq!(s.fields.len(), 0);
        }
        _ => panic!("expected a structure"),
    }
}

#[test]
fn struct_declaration_fields() {
    let sig = chars("typedef struct point {\nint x; /**< x coord */\nchar *name; /**< label */\n} Point;");
    let s = parse_struct_sig(&sig, StructItem::default()).expect("readable declaration");
    assert_eq!(s.meta.identifier.original, "point");
    assert_eq!(s.meta.identifier.alias, "Point");
    assert_eq!(s.fields.len(), 2);
    assert_eq!(s.fields[0].decl_type, "int");
    assert_eq!(s.fields[0].name, "x;");
    assert_eq!(s.fields[0].desc, "x coord");
    assert_eq!(s.fields[1].decl_type, "char *");
    assert_eq!(s.fields[1].name, "name");
    assert_eq!(s.fields[1].desc, "label");
}

#[test]
fn other_typedefs_give_nothing() {
    let b = block("* @brief U\n*/\n", "typedef union u { int a; } U;\n");
    assert!(parse_doc_block(&b).is_none());
    match try_parse_doc_block(&b) {
        Some(None) => {}
        _ => panic!("expected no item"),
    }
}

#[test]
fn short_member_comment_has_no_result() {
    assert!(parse_enum_sig(&chars("typedef enum {\nA, /**< x\n} E;"), EnumItem::default()).is_none());
    assert!(parse_struct_sig(&chars("typedef struct {\nint a; /**< x\n} S;"), StructItem::default()).is_none());
}

#[test]
fn cut_inside_a_character_has_no_result() {
    let b = block("*/\n", "int \u{e9}*x(void);\n");
    assert!(try_parse_doc_block(&b).is_none());
}

#[test]
fn short_parameter_list_has_no_result() {
    let b = block("*/\n", "int f(\n");
    assert!(try_parse_doc_block(&b).is_none());
}

#[test]
fn field_of_only_stars_has_no_result() {
    let sig = chars("typedef struct {\nint * /**< p */\n} S;");
    assert!(parse_struct_sig(&sig, StructItem::default()).is_none());
}

#[test]
fn typedef_blocks_always_have_a_result() {
    let b = block("*/\n", "typedef enum {\nA, /**< x\n} E;\n");
    match try_parse_doc_block(&b) {
        Some(Some(DocItem::Enum(e))) => {
            assert_eq!(e.members.len(), 0);
            assert_eq!(e.meta.identifier.alias, "E");
        }
        _ => panic!("expected an enumeration"),
    }
}

#[test]
fn blocks_are_found_in_a_header() {
    let content = "#pragma once\n\n/**\n * @brief Adds.\n */\nint add(int a,\n        int b);\n// plain\n/** @brief skipped line\n * @brief Second\n */\nvoid f(void);\n/**\n * unterminated\n";
    let blocks = get_doc_blocks(content);
    assert_eq!(blocks.len(), 2);
    assert_eq!(blocks[0].doc, "* @brief Adds.\n*/\n");
    assert_eq!(blocks[0].signature, "int add(int a,\nint b);\n");
    assert_eq!(blocks[1].doc, "* @brief Second\n*/\n");
    assert_eq!(blocks[1].signature, "void f(void);\n");
}

#[test]
fn crlf_lines_are_read() {
    let content = "/**\r\n * @brief X\r\n */\r\nint x(void);\r\n";
    let blocks = get_doc_blocks(content);
    assert_eq!(blocks.len(), 1);
    assert_eq!(blocks[0].doc, "* @brief X\n*/\n");
    assert_eq!(blocks[0].signature, "int x(void);\n");
}

#[test]
fn found_blocks_are_complete() {
    let content = "/**\n*/\nint a;\n/**\nx */\nint b(\nint c);\n";
    for b in get_doc_blocks(content) {
        assert!(b.doc.ends_with("*/\n"));
        assert!(b.signature.ends_with(";\n"));
    }
}

#[test]
fn text_before_any_tag_is_reported() {
    let b = block("* Stray text\n* @brief B\n*/\n", "void f(void);\n");
    assert_eq!(block_warnings(&b), vec!["Stray text".to_string()]);
    match parse_doc_block(&b) {
        Some(DocItem::Function(f)) => assert_eq!(f.meta.short_desc, "B"),
        _ => panic!("expected a function"),
    }
}

#[test]
fn comment_without_tags_reports_its_end() {
    assert_eq!(block_warnings(&block("*/\n", "void f(void);\n")), vec![String::new()]);
    assert_eq!(block_warnings(&block("* just <text>\n*/\n", "void f(void);\n")), vec!["just \\<text\\>".to_string()]);
    assert!(block_warnings(&block("* @brief B\n*/\n", "void f(void);\n")).is_empty());
}
