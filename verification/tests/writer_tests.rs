use headerdoc::discovery::{header_output_dir, is_public_header};
use headerdoc::parser::{parse_doc_block, parse_enum_sig, parse_struct_sig};
use headerdoc::types::{DocBlock, DocItem, EnumItem, StructItem};
use headerdoc::writer::{markdown_file_name, write_meta_header, write_enum, write_func, write_struct};

fn block(doc: &str, signature: &str) -> DocBlock {
    DocBlock { doc: doc.to_string(), signature: signature.to_string() }
}

fn render(b: &DocBlock) -> String {
    let mut buf = String::new();
    match parse_doc_block(b) {
        Some(DocItem::Function(f)) => write_func(f, &mut buf),
        Some(DocItem::Enum(e)) => write_enum(e, &mut buf),
        Some(DocItem::Struct(s)) => write_struct(s, &mut buf),
        None => panic!("expected an item"),
    }
    buf
}

#[test]
fn function_page() {
    let b = block(
        "* @brief Adds two numbers.\n*\n* Longer text here.\n* @param a first\n* @param b second\n* @return the sum\n*/\n",
        "int add(int a, int b);\n",
    );
    let expected = [
        "---\n",
        "title: \"add\"\n",
        "description: \"Adds two numbers. Longer text here.\"\n",
        "sidebar_position: \"3\"\n",
        "tags: [add, added , updated ]\n",
        "keywords: [ml-in-c, machine learning, add]\n",
        "last_update:\n",
        "  date: \n",
        "  author: \n",
        "---\n\n",
        "```c\nint add(int a, int b);\n```\n\n",
        "Adds two numbers.\n\n",
        "Longer text here.\n\n",
        ":::info\n\nLast updated in version ****\n\n:::\n\n",
        "## Parameters\n\n",
        "- **`int a`** ← _first_  \n",
        "- **`int b`** ← _second_  \n",
        "## Return\n\n",
        "- **`int`** → the sum",
    ]
    .concat();
    assert_eq!(render(&b), expected);
}

#[test]
fn pointer_parameter_has_no_space() {
    let b = block("* @brief Copies.\n* @param s source\n* @return a copy\n*/\n", "char *dup(const char *s);\n");
    let page = render(&b);
    assert!(page.contains("- **`const char *s`** ← _source_  \n"));
    assert!(page.ends_with("## Return\n\n- **`char *`** → a copy"));
}

#[test]
fn enum_page() {
    let b = block(
        "* @brief Colors.\n* @since 1.0\n* @version 1.2\n*/\n",
        "typedef enum color {\nRED, /**< red color */\nGREEN = 5, /**< green */\nBLUE /**< blue */\n} Color;\n",
    );
    let expected = [
        "---\n",
        "title: \"Color\"\n",
        "description: \"Colors.\"\n",
        "sidebar_position: \"2\"\n",
        "tags: [Color, added 1.0, updated 1.2]\n",
        "keywords: [ml-in-c, machine learning, Color]\n",
        "last_update:\n",
        "  date: \n",
        "  author: \n",
        "---\n\n",
        "```c\ntypedef enum color {\n    RED,\n    GREEN = 5,\n    BLUE\n} Color;\n```\n\n",
        "Colors.\n\n",
        "\n\n",
        ":::info\n\nLast updated in version **1.2**\n\n:::\n\n",
        ":::info\n\nAdded in version **1.0**\n\n:::\n\n",
        "## Members\n\n",
    ]
    .concat();
    assert_eq!(render(&b), expected);
}

#[test]
fn struct_page() {
    let b = block(
        "* @brief A point.\n* @note Immutable.\n* @see make_point() creates one\n*/\n",
        "typedef struct point {\nint x; /**< x coord */\nchar *name; /**< label */\n} Point;\n",
    );
    let expected = [
        "---\n",
        "title: \"Point\"\n",
        "description: \"A point.\"\n",
        "sidebar_position: \"1\"\n",
        "tags: [Point, added , updated ]\n",
        "keywords: [ml-in-c, machine learning, Point]\n",
        "last_update:\n",
        "  date: \n",
        "  author: \n",
        "---\n\n",
        "```c\ntypedef struct point {\n    int x;\n    char *name;\n} Point;\n```\n\n",
        "A point.\n\n",
        "\n\n",
        ":::info\n\nLast updated in version ****\n\n:::\n\n",
        "## Properties\n\n",
        "\n:::note\n\n- Immutable.\n\n:::\n",
        "\n:::tip see also\n\n- [**`make_point()`**](make_point) creates one\n\n:::\n",
    ]
    .concat();
    assert_eq!(render(&b), expected);
}

#[test]
fn pages_start_with_front_matter() {
    let b = block("*/\n", "void f(void);\n");
    assert!(render(&b).starts_with("---\n"));
}

#[test]
fn writing_appends_to_the_buffer() {
    let b = block("*/\n", "void f(void);\n");
    let mut buf = String::from("prefix");
    match parse_doc_block(&b) {
        Some(DocItem::Function(f)) => write_func(f, &mut buf),
        _ => panic!("expected a function"),
    }
    assert!(buf.starts_with("prefix---\n"));
}

#[test]
fn page_file_name() {
    assert_eq!(markdown_file_name(&"Color".to_string()), "Color.md");
}

#[test]
fn public_headers() {
    assert!(is_public_header("tensor.h"));
    assert!(!is_public_header("tensor_internal.h"));
    assert!(!is_public_header("tensor.c"));
    assert!(!is_public_header(".h"));
    assert!(is_public_header("a.b.h"));
    assert!(!is_public_header("tensor.hpp"));
}

#[test]
fn output_directories() {
    assert_eq!(header_output_dir("lib/include/ml/tensor.h"), "ml/tensor");
    assert_eq!(header_output_dir("a/include/b/include/c.h"), "c");
    assert_eq!(header_output_dir("src/tensor.h"), "");
    assert_eq!(header_output_dir("include/x.h.h"), "x");
}

#[test]
fn member_and_field_lists() {
    let e = parse_enum_sig(
        &"typedef enum {\nRED, /**< red */\nGREEN = 5, /**< green */\n} Color;".chars().collect::<Vec<_>>(),
        EnumItem::default(),
    )
    .expect("readable declaration");
    let mut buf = String::new();
    write_enum(e, &mut buf);
    assert!(buf.ends_with("## Members\n\n- **`RED = 0`** ← _red_  \n- **`GREEN  = 5`** ← _green_  \n"));
    let s = parse_struct_sig(
        &"typedef struct {\nint x; /**< x coord */\nchar *name; /**< label */\n} P;".chars().collect::<Vec<_>>(),
        StructItem::default(),
    )
    .expect("readable declaration");
    let mut buf = String::new();
    write_struct(s, &mut buf);
    assert!(buf.ends_with("## Properties\n\n- **`int x;`** ← _x coord_  \n- **`char *name`** ← _label_  \n"));
}

#[test]
fn header_keeps_buffer_and_opens_with_title() {
    let b = block("* @brief Short\n*\n* Long\n*/\n", "int g(void);\n");
    match parse_doc_block(&b) {
        Some(DocItem::Function(f)) => {
            let mut out: Vec<char> = "xy".chars().collect();
            write_meta_header(&f.meta, &mut out);
            let text: String = out.iter().collect();
            assert!(text.starts_with("xy---\ntitle: \"g\"\ndescription: \"Short Long\"\n"));
        }
        _ => panic!("expected a function"),
    }
}
