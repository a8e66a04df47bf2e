use headerdoc::parser::{clean_str, parse_doc, parse_func_sig};
use headerdoc::text::{
    back_bytes_cut, chars_of, count_of, find_pos, front_bytes_cut, push_decimal, replace_vec,
    rfind_pos, rsplit_once_vec, split_lines, split_on, split_once_vec, string_from,
    trim_start_char_vec, trim_vec,
};
use headerdoc::types::FunctionItem;

fn chars(s: &str) -> Vec<char> {
    s.chars().collect()
}

fn text(v: &[char]) -> String {
    v.iter().collect()
}

const SAMPLES: &[&str] = &[
    "",
    " ",
    "abc",
    "  a b  ",
    "\t\n x \r\n",
    "\u{a0}é\u{3000}",
    "a\nb\n",
    "a\r\nb\r",
    "\n\n",
    "x\r",
    "a<b>c",
    "<<>>",
    "f(int a, int b);",
    "**p*",
    "a,,b,",
    "héllo wörld",
];

#[test]
fn trimming_agrees_with_str() {
    for s in SAMPLES {
        assert_eq!(text(&trim_vec(&chars(s))), s.trim());
        assert_eq!(text(&trim_start_char_vec(&chars(s), '*')), s.trim_start_matches('*'));
    }
}

#[test]
fn lines_agree_with_str() {
    for s in SAMPLES {
        let ours: Vec<String> = split_lines(&chars(s)).iter().map(|l| text(l)).collect();
        let theirs: Vec<String> = s.lines().map(|l| l.to_string()).collect();
        assert_eq!(ours, theirs, "lines of {:?}", s);
    }
}

#[test]
fn splitting_agrees_with_str() {
    for s in SAMPLES {
        let ours: Vec<String> = split_on(&chars(s), ',').iter().map(|l| text(l)).collect();
        let theirs: Vec<String> = s.split(',').map(|l| l.to_string()).collect();
        assert_eq!(ours, theirs);
        for p in [" ", "a", "<", ", ", "b\n"] {
            let ours = split_once_vec(&chars(s), &chars(p)).map(|(a, b)| (text(&a), text(&b)));
            let theirs = s.split_once(p).map(|(a, b)| (a.to_string(), b.to_string()));
            assert_eq!(ours, theirs);
            let ours = rsplit_once_vec(&chars(s), &chars(p)).map(|(a, b)| (text(&a), text(&b)));
            let theirs = s.rsplit_once(p).map(|(a, b)| (a.to_string(), b.to_string()));
            assert_eq!(ours, theirs);
        }
    }
}

#[test]
fn searching_counts_characters() {
    assert_eq!(find_pos(&chars("aXbXc"), &chars("X")), Some(1));
    assert_eq!(rfind_pos(&chars("aXbXc"), &chars("X")), Some(3));
    assert_eq!(rfind_pos(&chars("aaa"), &chars("aa")), Some(1));
    assert_eq!(find_pos(&chars("abc"), &chars("")), Some(0));
    assert_eq!(rfind_pos(&chars("abc"), &chars("")), Some(3));
    assert_eq!(find_pos(&chars("abc"), &chars("abcd")), None);
    assert_eq!(find_pos(&chars("éX"), &chars("X")), Some(1));
    assert_eq!(count_of(&chars("**p*"), '*'), 3);
}

#[test]
fn replacing_agrees_with_str() {
    for s in SAMPLES {
        for (from, to) in [("<", "\\<"), (",", ""), ("aa", "b"), ("()", "")] {
            assert_eq!(text(&replace_vec(&chars(s), &chars(from), &chars(to))), s.replace(from, to));
        }
    }
    assert_eq!(text(&replace_vec(&chars("aaa"), &chars("aa"), &chars("b"))), "ba");
}

#[test]
fn escaping_brackets() {
    assert_eq!(text(&clean_str(&chars("a<b>c"))), "a\\<b\\>c");
    assert_eq!(text(&clean_str(&chars("plain"))), "plain");
}

#[test]
fn decimal_numerals() {
    for n in [0usize, 7, 10, 42, 100, 123456789] {
        let mut v = Vec::new();
        push_decimal(&mut v, n);
        assert_eq!(text(&v), n.to_string());
    }
}

#[test]
fn byte_cuts() {
    assert_eq!(front_bytes_cut(&chars("**name"), 2), Some(2));
    assert_eq!(front_bytes_cut(&chars("é*x"), 1), None);
    assert_eq!(front_bytes_cut(&chars("é*x"), 2), Some(1));
    assert_eq!(front_bytes_cut(&chars("ab"), 3), None);
    assert_eq!(back_bytes_cut(&chars("abc);"), 2), Some(3));
    assert_eq!(back_bytes_cut(&chars("x"), 2), None);
    assert_eq!(back_bytes_cut(&chars("aé"), 2), Some(1));
    assert_eq!(back_bytes_cut(&chars("aé"), 1), None);
}

#[test]
fn string_round_trip() {
    for s in SAMPLES {
        assert_eq!(string_from(&chars_of(s)), *s);
    }
}

#[test]
fn comment_text_is_read() {
    let (meta, func) = parse_doc(&chars("* @brief One\n* two\n*\n* Three\n* @return r\n*/\n"));
    assert_eq!(meta.short_desc, "One two");
    assert_eq!(meta.long_desc, "Three");
    assert_eq!(func.ret.desc, "r");
    assert_eq!(func.params.len(), 0);
}

#[test]
fn function_declaration_is_read() {
    let mut func = FunctionItem::default();
    let (_, documented) = parse_doc(&chars("* @param n count\n* @param out result\n"));
    func.params = documented.params;
    let f = parse_func_sig(&chars("size_t **split(int n,\nchar ***out);"), func).expect("readable declaration");
    assert_eq!(f.meta.identifier.original, "split");
    assert_eq!(f.meta.identifier.alias, "split");
    assert_eq!(f.ret.decl_type, "size_t **");
    assert_eq!(f.params[0].decl_type, "int");
    assert_eq!(f.params[1].decl_type, "char ***");
}

#[test]
fn name_on_its_own_line_is_not_split() {
    let f = parse_func_sig(&chars("size_t\nsplit(void);"), FunctionItem::default()).expect("readable declaration");
    assert_eq!(f.meta.identifier.alias, "");
    assert_eq!(f.ret.decl_type, "");
}
