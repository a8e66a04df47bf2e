//! Rendering documented items as Markdown pages.

use vstd::prelude::*;
use crate::text::{
    chars_of, ends_with, extend_chars, find, find_pos, has_prefix, has_suffix, lines,
    push_chars, replace, string_from, replace_vec, seqs_of, slice_copy, split_lines, starts_with, trim,
    trim_vec,
};
use crate::types::{
    DocMeta, DocMetaView, EntryView, EnumItem, EnumItemView, FunctionItem, FunctionItemView,
    ReferenceView, StructItem, StructItemView,
};

verus! {

// ---------------------------------------------------------------------------
// The page header
// ---------------------------------------------------------------------------

/// A line of the declaration as the page shows it: lines other than the
/// first and the last are indented by four spaces and lose what follows
/// their first `/` (trimmed); every line is preceded by a line feed.
pub open spec fn signature_line(i: int, n: int, line: Seq<char>) -> Seq<char> {
    if i > 0 && i < n - 1 {
        "\n    "@ + match find(line, seq!['/']) {
            Some(b) => trim(line.take(b)),
            None => line,
        }
    } else {
        "\n"@ + line
    }
}

/// The first `k` lines of `ls` as the page shows them.
pub open spec fn signature_body(ls: Seq<Seq<char>>, k: nat) -> Seq<char>
    decreases k,
{
    if k == 0 {
        Seq::empty()
    } else {
        signature_body(ls, (k - 1) as nat) + signature_line(k - 1, ls.len() as int, ls[k - 1])
    }
}

/// The declaration as the page shows it.
pub open spec fn formatted_signature(sig: Seq<char>) -> Seq<char> {
    let ls = lines(sig);
    trim(signature_body(ls, ls.len()))
}

/// The page's position in the sidebar: structures first, then enumerations,
/// then functions.
pub open spec fn sidebar_position(sig: Seq<char>) -> Seq<char> {
    if starts_with(sig, "typedef struct"@) {
        "1"@
    } else if starts_with(sig, "typedef enum"@) {
        "2"@
    } else {
        "3"@
    }
}

/// The page header without the "added in" notice.
pub open spec fn meta_header_base(m: DocMetaView) -> Seq<char> {
    let title = m.identifier.alias;
    "---\n"@ + "title: \""@ + title + "\"\n"@ + "description: \""@ + trim(
        m.short_desc + " "@ + m.long_desc,
    ) + "\"\n"@ + "sidebar_position: \""@ + sidebar_position(m.signature) + "\"\n"@ + "tags: ["@
        + title + ", added "@ + m.since_ver + ", updated "@ + m.latest_ver + "]\n"@
        + "keywords: ["@ + "ml-in-c, machine learning, "@ + title + "]\n"@ + "last_update:\n"@
        + "  date: "@ + m.created_date + "\n"@ + "  author: "@ + m.author + "\n"@ + "---\n\n"@
        + "```c\n"@ + formatted_signature(m.signature) + "\n```\n\n"@ + m.short_desc + "\n\n"@
        + m.long_desc + "\n\n"@ + ":::info\n\nLast updated in version **"@ + m.latest_ver
        + "**\n\n:::\n\n"@
}

/// The page header: front matter, the declaration, the descriptions and the
/// version notices; the "added in" notice only when the item was added in
/// another version than the one it was last updated in.
pub open spec fn meta_header(m: DocMetaView) -> Seq<char> {
    if m.latest_ver != m.since_ver {
        meta_header_base(m) + ":::info\n\nAdded in version **"@ + m.since_ver + "**\n\n:::\n\n"@
    } else {
        meta_header_base(m)
    }
}

/// Appends the characters of `lit`.
fn put(out: &mut Vec<char>, lit: &str)
    ensures
        final(out)@ == old(out)@ + lit@,
{
    let v = chars_of(lit);
    extend_chars(out, &v);
}

/// Appends the characters of `s`.
fn put_string(out: &mut Vec<char>, s: &String)
    ensures
        final(out)@ == old(out)@ + s@,
{
    let v = chars_of(s.as_str());
    extend_chars(out, &v);
}

/// `formatted_signature(sig)`.
fn format_signature(sig: &String) -> (res: Vec<char>)
    ensures
        res@ == formatted_signature(sig@),
{
    let text = chars_of(sig.as_str());
    let ls = split_lines(&text);
    let n = ls.len();
    let slash = vec!['/'];
    assert(slash@ =~= seq!['/']);
    let mut body: Vec<char> = Vec::new();
    for i in 0..n
        invariant
            n == ls@.len(),
            seqs_of(ls@) == lines(sig@),
            slash@ == seq!['/'],
            body@ == signature_body(lines(sig@), i as nat),
    {
        let ghost lv = lines(sig@);
        assert(lv[i as int] == ls@[i as int]@);
        let line = &ls[i];
        if i > 0 && i + 1 < n {
            put(&mut body, "\n    ");
            match find_pos(line, &slash) {
                Some(b) => {
                    proof {
                        crate::text::lemma_find_from_bounds(line@, slash@, 0);
                    }
                    let head = slice_copy(line, 0, b);
                    assert(head@ =~= line@.take(b as int));
                    let t = trim_vec(&head);
                    extend_chars(&mut body, &t);
                },
                None => extend_chars(&mut body, line),
            }
        } else {
            put(&mut body, "\n");
            extend_chars(&mut body, line);
        }
        assert(body@ =~= signature_body(lv, i as nat) + signature_line(i as int, n as int, lv[i as int]));
    }
    trim_vec(&body)
}

/// Appends the page header of `meta` to `out`, keeping what `out` holds.
pub fn write_meta_header(meta: &DocMeta, out: &mut Vec<char>)
    ensures
        final(out)@ == old(out)@ + meta_header(meta@),
{
    let mut h = chars_of("---\n");
    put(&mut h, "title: \"");
    put_string(&mut h, &meta.identifier.alias);
    put(&mut h, "\"\n");
    put(&mut h, "description: \"");
    let mut full_desc = chars_of(meta.short_desc.as_str());
    put(&mut full_desc, " ");
    put_string(&mut full_desc, &meta.long_desc);
    let full_desc = trim_vec(&full_desc);
    extend_chars(&mut h, &full_desc);
    put(&mut h, "\"\n");
    put(&mut h, "sidebar_position: \"");
    let sig = chars_of(meta.signature.as_str());
    let typedef_struct = chars_of("typedef struct");
    let typedef_enum = chars_of("typedef enum");
    if has_prefix(&sig, &typedef_struct) {
        put(&mut h, "1");
    } else if has_prefix(&sig, &typedef_enum) {
        put(&mut h, "2");
    } else {
        put(&mut h, "3");
    }
    put(&mut h, "\"\n");
    put(&mut h, "tags: [");
    put_string(&mut h, &meta.identifier.alias);
    put(&mut h, ", added ");
    put_string(&mut h, &meta.since_ver);
    put(&mut h, ", updated ");
    put_string(&mut h, &meta.latest_ver);
    put(&mut h, "]\n");
    put(&mut h, "keywords: [");
    put(&mut h, "ml-in-c, machine learning, ");
    put_string(&mut h, &meta.identifier.alias);
    put(&mut h, "]\n");
    put(&mut h, "last_update:\n");
    put(&mut h, "  date: ");
    put_string(&mut h, &meta.created_date);
    put(&mut h, "\n");
    put(&mut h, "  author: ");
    put_string(&mut h, &meta.author);
    put(&mut h, "\n");
    put(&mut h, "---\n\n");
    put(&mut h, "```c\n");
    let formatted = format_signature(&meta.signature);
    extend_chars(&mut h, &formatted);
    put(&mut h, "\n```\n\n");
    put_string(&mut h, &meta.short_desc);
    put(&mut h, "\n\n");
    put_string(&mut h, &meta.long_desc);
    put(&mut h, "\n\n");
    put(&mut h, ":::info\n\nLast updated in version **");
    put_string(&mut h, &meta.latest_ver);
    put(&mut h, "**\n\n:::\n\n");
    assert(h@ == meta_header_base(meta@));
    if meta.latest_ver != meta.since_ver {
        put(&mut h, ":::info\n\nAdded in version **");
        put_string(&mut h, &meta.since_ver);
        put(&mut h, "**\n\n:::\n\n");
    }
    extend_chars(out, &h);
}

// ---------------------------------------------------------------------------
// The page footer
// ---------------------------------------------------------------------------

/// The notes as a bulleted list.
pub open spec fn notes_list(notes: Seq<Seq<char>>) -> Seq<char>
    decreases notes.len(),
{
    if notes.len() == 0 {
        Seq::empty()
    } else {
        notes_list(notes.drop_last()) + "- "@ + notes.last() + "\n"@
    }
}

/// The "see also" entries as a bulleted list of links; a link's target is
/// the subject without `()`.
pub open spec fn references_list(refs: Seq<ReferenceView>) -> Seq<char>
    decreases refs.len(),
{
    if refs.len() == 0 {
        Seq::empty()
    } else {
        let r = refs.last();
        references_list(refs.drop_last()) + "- [**`"@ + r.subject + "`**]("@ + replace(
            r.subject,
            "()"@,
            Seq::empty(),
        ) + ") "@ + r.desc + "\n"@
    }
}

/// The notes box, when there are notes.
pub open spec fn notes_box(m: DocMetaView) -> Seq<char> {
    if m.notes.len() > 0 {
        "\n:::note\n\n"@ + notes_list(m.notes) + "\n:::\n"@
    } else {
        Seq::empty()
    }
}

/// The "see also" box, when there are references.
pub open spec fn references_box(m: DocMetaView) -> Seq<char> {
    if m.references.len() > 0 {
        "\n:::tip see also\n\n"@ + references_list(m.references) + "\n:::\n"@
    } else {
        Seq::empty()
    }
}

/// The page footer: the notes box, then the "see also" box.
pub open spec fn meta_footer(m: DocMetaView) -> Seq<char> {
    notes_box(m) + references_box(m)
}

/// Appends the page footer of `meta` to `out`, keeping what `out` holds.
pub fn write_meta_footer(meta: &DocMeta, out: &mut Vec<char>)
    ensures
        final(out)@ == old(out)@ + meta_footer(meta@),
{
    let ghost m = meta@;
    let mut notes: Vec<char> = Vec::new();
    if meta.notes.len() > 0 {
        put(&mut notes, "\n:::note\n\n");
        let n = meta.notes.len();
        let mut list: Vec<char> = Vec::new();
        for i in 0..n
            invariant
                n == m.notes.len(),
                m == meta@,
                list@ == notes_list(m.notes.take(i as int)),
        {
            assert(m.notes.take(i + 1).drop_last() =~= m.notes.take(i as int));
            assert(m.notes[i as int] == meta.notes@[i as int]@);
            put(&mut list, "- ");
            put_string(&mut list, &meta.notes[i]);
            put(&mut list, "\n");
        }
        assert(m.notes.take(n as int) =~= m.notes);
        extend_chars(&mut notes, &list);
        put(&mut notes, "\n:::\n");
    }
    assert(notes@ =~= notes_box(m));
    let mut refs: Vec<char> = Vec::new();
    if meta.references.len() > 0 {
        put(&mut refs, "\n:::tip see also\n\n");
        let n = meta.references.len();
        let mut list: Vec<char> = Vec::new();
        let parens = chars_of("()");
        proof {
            reveal_strlit("()");
        }
        let nothing: Vec<char> = Vec::new();
        assert(nothing@ =~= Seq::<char>::empty());
        for i in 0..n
            invariant
                n == m.references.len(),
                m == meta@,
                parens@ == "()"@,
                parens@.len() > 0,
                nothing@ == Seq::<char>::empty(),
                list@ == references_list(m.references.take(i as int)),
        {
            assert(m.references.take(i + 1).drop_last() =~= m.references.take(i as int));
            assert(m.references[i as int] == meta.references@[i as int]@);
            let r = &meta.references[i];
            put(&mut list, "- [**`");
            put_string(&mut list, &r.subject);
            put(&mut list, "`**](");
            let subject = chars_of(r.subject.as_str());
            let target = replace_vec(&subject, &parens, &nothing);
            extend_chars(&mut list, &target);
            put(&mut list, ") ");
            put_string(&mut list, &r.desc);
            put(&mut list, "\n");
        }
        assert(m.references.take(n as int) =~= m.references);
        extend_chars(&mut refs, &list);
        put(&mut refs, "\n:::\n");
    }
    assert(refs@ =~= references_box(m));
    extend_chars(out, &notes);
    extend_chars(out, &refs);
    assert(out@ =~= old(out)@ + meta_footer(m));
}

// ---------------------------------------------------------------------------
// Pages
// ---------------------------------------------------------------------------

/// A parameter or field as a list entry: its type, a space unless the type
/// ends with `*`, its name, and its description.
pub open spec fn entry_line(e: EntryView) -> Seq<char> {
    "- **`"@ + e.first + (if ends_with(e.first, seq!['*']) {
        Seq::empty()
    } else {
        seq![' ']
    }) + e.name + "`** ← _"@ + e.desc + "_  \n"@
}

/// An enumeration member as a list entry: `name = value` and its description.
pub open spec fn member_line(e: EntryView) -> Seq<char> {
    "- **`"@ + e.name + " = "@ + e.first + "`** ← _"@ + e.desc + "_  \n"@
}

/// The parameters or fields as a list.
pub open spec fn entry_lines(es: Seq<EntryView>) -> Seq<char>
    decreases es.len(),
{
    if es.len() == 0 {
        Seq::empty()
    } else {
        entry_lines(es.drop_last()) + entry_line(es.last())
    }
}

/// The members as a list.
pub open spec fn member_lines(es: Seq<EntryView>) -> Seq<char>
    decreases es.len(),
{
    if es.len() == 0 {
        Seq::empty()
    } else {
        member_lines(es.drop_last()) + member_line(es.last())
    }
}

/// The page of a function.
pub open spec fn func_markdown(f: FunctionItemView) -> Seq<char> {
    meta_header(f.meta) + "## Parameters\n\n"@ + entry_lines(f.params) + "## Return\n\n"@
        + "- **`"@ + f.ret.decl_type + "`** → "@ + f.ret.desc + meta_footer(f.meta)
}

/// The page of an enumeration.
pub open spec fn enum_markdown(e: EnumItemView) -> Seq<char> {
    meta_header(e.meta) + "## Members\n\n"@ + member_lines(e.members) + meta_footer(e.meta)
}

/// The page of a structure.
pub open spec fn struct_markdown(s: StructItemView) -> Seq<char> {
    meta_header(s.meta) + "## Properties\n\n"@ + entry_lines(s.fields) + meta_footer(s.meta)
}

/// Appends `entry_line(first, name, desc)`.
fn write_entry(out: &mut Vec<char>, first: &String, name: &String, desc: &String)
    ensures
        final(out)@ == old(out)@ + entry_line(EntryView { first: first@, name: name@, desc: desc@ }),
{
    let star = vec!['*'];
    assert(star@ =~= seq!['*']);
    let ty = chars_of(first.as_str());
    let mut line = chars_of("- **`");
    extend_chars(&mut line, &ty);
    if !has_suffix(&ty, &star) {
        line.push(' ');
    }
    put_string(&mut line, name);
    put(&mut line, "`** ← _");
    put_string(&mut line, desc);
    put(&mut line, "_  \n");
    assert(line@ =~= entry_line(EntryView { first: first@, name: name@, desc: desc@ }));
    extend_chars(out, &line);
}

/// Appends `member_line(value, name, desc)`.
fn write_member(out: &mut Vec<char>, value: &String, name: &String, desc: &String)
    ensures
        final(out)@ == old(out)@ + member_line(EntryView { first: value@, name: name@, desc: desc@ }),
{
    let mut line = chars_of("- **`");
    put_string(&mut line, name);
    put(&mut line, " = ");
    put_string(&mut line, value);
    put(&mut line, "`** ← _");
    put_string(&mut line, desc);
    put(&mut line, "_  \n");
    extend_chars(out, &line);
}

/// Appends the page of the function `item` to `buf`.
pub fn write_func(item: FunctionItem, buf: &mut String)
    ensures
        final(buf)@ == old(buf)@ + func_markdown(item@),
{
    let ghost f = item@;
    let mut out: Vec<char> = Vec::new();
    write_meta_header(&item.meta, &mut out);
    put(&mut out, "## Parameters\n\n");
    let n = item.params.len();
    let mut list: Vec<char> = Vec::new();
    for i in 0..n
        invariant
            n == f.params.len(),
            f == item@,
            list@ == entry_lines(f.params.take(i as int)),
    {
        assert(f.params.take(i + 1).drop_last() =~= f.params.take(i as int));
        assert(f.params[i as int] == item.params@[i as int]@);
        let p = &item.params[i];
        write_entry(&mut list, &p.decl_type, &p.name, &p.desc);
    }
    assert(f.params.take(n as int) =~= f.params);
    extend_chars(&mut out, &list);
    put(&mut out, "## Return\n\n");
    put(&mut out, "- **`");
    put_string(&mut out, &item.ret.decl_type);
    put(&mut out, "`** → ");
    put_string(&mut out, &item.ret.desc);
    write_meta_footer(&item.meta, &mut out);
    assert(out@ =~= func_markdown(f));
    push_chars(buf, &out);
}

/// Appends the page of the enumeration `item` to `buf`.
pub fn write_enum(item: EnumItem, buf: &mut String)
    ensures
        final(buf)@ == old(buf)@ + enum_markdown(item@),
{
    let ghost e = item@;
    let mut out: Vec<char> = Vec::new();
    write_meta_header(&item.meta, &mut out);
    put(&mut out, "## Members\n\n");
    let n = item.members.len();
    let mut list: Vec<char> = Vec::new();
    for i in 0..n
        invariant
            n == e.members.len(),
            e == item@,
            list@ == member_lines(e.members.take(i as int)),
    {
        assert(e.members.take(i + 1).drop_last() =~= e.members.take(i as int));
        assert(e.members[i as int] == item.members@[i as int]@);
        let m = &item.members[i];
        write_member(&mut list, &m.value, &m.name, &m.desc);
    }
    assert(e.members.take(n as int) =~= e.members);
    extend_chars(&mut out, &list);
    write_meta_footer(&item.meta, &mut out);
    assert(out@ =~= enum_markdown(e));
    push_chars(buf, &out);
}

/// Appends the page of the structure `item` to `buf`.
pub fn write_struct(item: StructItem, buf: &mut String)
    ensures
        final(buf)@ == old(buf)@ + struct_markdown(item@),
{
    let ghost st = item@;
    let mut out: Vec<char> = Vec::new();
    write_meta_header(&item.meta, &mut out);
    put(&mut out, "## Properties\n\n");
    let n = item.fields.len();
    let mut list: Vec<char> = Vec::new();
    for i in 0..n
        invariant
            n == st.fields.len(),
            st == item@,
            list@ == entry_lines(st.fields.take(i as int)),
    {
        assert(st.fields.take(i + 1).drop_last() =~= st.fields.take(i as int));
        assert(st.fields[i as int] == item.fields@[i as int]@);
        let fld = &item.fields[i];
        write_entry(&mut list, &fld.decl_type, &fld.name, &fld.desc);
    }
    assert(st.fields.take(n as int) =~= st.fields);
    extend_chars(&mut out, &list);
    write_meta_footer(&item.meta, &mut out);
    assert(out@ =~= struct_markdown(st));
    push_chars(buf, &out);
}

/// The name of the page file of an item published under `alias`.
pub open spec fn markdown_file_name_spec(alias: Seq<char>) -> Seq<char> {
    alias + ".md"@
}

/// The name of the page file of an item published under `alias`.
pub fn markdown_file_name(alias: &String) -> (res: String)
    ensures
        res@ == markdown_file_name_spec(alias@),
{
    let mut out: Vec<char> = chars_of(alias.as_str());
    put(&mut out, ".md");
    string_from(&out)
}

// ---------------------------------------------------------------------------
// Laws
// ---------------------------------------------------------------------------

broadcast proof fn lemma_prefix_grows(a: Seq<char>, b: Seq<char>, p: Seq<char>)
    requires
        starts_with(a, p),
    ensures
        #[trigger] starts_with(a + b, p),
{
    assert((a + b).take(p.len() as int) =~= a.take(p.len() as int));
}

proof fn lemma_header_front_matter(m: DocMetaView)
    ensures
        starts_with(meta_header(m), "---\n"@),
{
    broadcast use lemma_prefix_grows;

    assert(starts_with("---\n"@, "---\n"@)) by {
        assert("---\n"@.take("---\n"@.len() as int) =~= "---\n"@);
    }
}

/// Every page opens with its front matter: it starts with `---` and a line
/// feed.
pub proof fn law_pages_open_with_front_matter(
    f: FunctionItemView,
    e: EnumItemView,
    st: StructItemView,
)
    ensures
        starts_with(func_markdown(f), "---\n"@),
        starts_with(enum_markdown(e), "---\n"@),
        starts_with(struct_markdown(st), "---\n"@),
{
    broadcast use lemma_prefix_grows;

    lemma_header_front_matter(f.meta);
    lemma_header_front_matter(e.meta);
    lemma_header_front_matter(st.meta);
}

/// The page header opens with the front matter's first lines: the title (the
/// item's alias) and the description (the brief and detailed descriptions,
/// joined by a space and trimmed).
pub proof fn law_header_opens_with_title(m: DocMetaView)
    ensures
        starts_with(
            meta_header(m),
            "---\n"@ + "title: \""@ + m.identifier.alias + "\"\n"@ + "description: \""@ + trim(
                m.short_desc + " "@ + m.long_desc,
            ) + "\"\n"@,
        ),
{
    broadcast use lemma_prefix_grows;

    let p = "---\n"@ + "title: \""@ + m.identifier.alias + "\"\n"@ + "description: \""@ + trim(
        m.short_desc + " "@ + m.long_desc,
    ) + "\"\n"@;
    assert(starts_with(p, p)) by {
        assert(p.take(p.len() as int) =~= p);
    }
}

/// `part` occurs in `s`.
spec fn has_part(s: Seq<char>, part: Seq<char>) -> bool {
    exists|a: Seq<char>, b: Seq<char>| s == a + part + b
}

broadcast proof fn lemma_part_grows(s: Seq<char>, y: Seq<char>, part: Seq<char>)
    requires
        has_part(s, part),
    ensures
        #[trigger] has_part(s + y, part),
{
    let (a, b) = choose|a: Seq<char>, b: Seq<char>| s == a + part + b;
    assert(s + y =~= a + part + (b + y));
}

/// The front matter's `last_update` entry: the date line and the author line.
pub open spec fn last_update_entry(m: DocMetaView) -> Seq<char> {
    "last_update:\n"@ + "  date: "@ + m.created_date + "\n"@ + "  author: "@ + m.author + "\n"@
}

proof fn lemma_header_has_last_update(m: DocMetaView)
    ensures
        has_part(meta_header(m), last_update_entry(m)),
{
    broadcast use lemma_part_grows;

    let title = m.identifier.alias;
    let a = "---\n"@ + "title: \""@ + title + "\"\n"@ + "description: \""@ + trim(
        m.short_desc + " "@ + m.long_desc,
    ) + "\"\n"@ + "sidebar_position: \""@ + sidebar_position(m.signature) + "\"\n"@ + "tags: ["@
        + title + ", added "@ + m.since_ver + ", updated "@ + m.latest_ver + "]\n"@
        + "keywords: ["@ + "ml-in-c, machine learning, "@ + title + "]\n"@;
    let s = a + "last_update:\n"@ + "  date: "@ + m.created_date + "\n"@ + "  author: "@ + m.author
        + "\n"@;
    assert(s =~= a + last_update_entry(m) + Seq::<char>::empty());
    assert(has_part(s, last_update_entry(m)));
}

/// Every page's front matter shows the item's date on its `date` line and its
/// author on its `author` line, in that order under `last_update`.
pub proof fn law_pages_show_date_then_author(
    f: FunctionItemView,
    e: EnumItemView,
    st: StructItemView,
)
    ensures
        exists|a: Seq<char>, b: Seq<char>| func_markdown(f) == a + ("last_update:\n"@ + "  date: "@ + f.meta.created_date + "\n"@ + "  author: "@ + f.meta.author + "\n"@) + b,
        exists|a: Seq<char>, b: Seq<char>| enum_markdown(e) == a + ("last_update:\n"@ + "  date: "@ + e.meta.created_date + "\n"@ + "  author: "@ + e.meta.author + "\n"@) + b,
        exists|a: Seq<char>, b: Seq<char>| struct_markdown(st) == a + ("last_update:\n"@ + "  date: "@ + st.meta.created_date + "\n"@ + "  author: "@ + st.meta.author + "\n"@) + b,
{
    broadcast use lemma_part_grows;

    lemma_header_has_last_update(f.meta);
    lemma_header_has_last_update(e.meta);
    lemma_header_has_last_update(st.meta);
    assert(has_part(func_markdown(f), last_update_entry(f.meta)));
    assert(has_part(enum_markdown(e), last_update_entry(e.meta)));
    assert(has_part(struct_markdown(st), last_update_entry(st.meta)));
}

/// The notes box lists the notes in the order they were written: a single
/// note `x` gives the box `"\n:::note\n\n- " x "\n\n:::\n"`, and adding a note
/// at the end adds its bullet at the end of the list, just before the box
/// closes (for an item without "see also" entries).
pub proof fn law_notes_in_written_order(m: DocMetaView, x: Seq<char>)
    requires
        m.references.len() == 0,
    ensures
        meta_footer(DocMetaView { notes: seq![x], ..m }) == "\n:::note\n\n"@ + "- "@ + x + "\n"@
            + "\n:::\n"@,
        m.notes.len() > 0 ==> ({
            let old_footer = meta_footer(m);
            meta_footer(DocMetaView { notes: m.notes.push(x), ..m }) == old_footer.take(
                old_footer.len() - 5,
            ) + "- "@ + x + "\n"@ + "\n:::\n"@
        }),
{
    reveal_strlit("\n:::\n");
    let one = seq![x];
    assert(one.drop_last() =~= Seq::<Seq<char>>::empty());
    assert(one.last() == x);
    assert(notes_list(Seq::<Seq<char>>::empty()) == Seq::<char>::empty());
    assert(notes_list(one.drop_last()) == Seq::<char>::empty());
    assert(notes_list(one) == Seq::<char>::empty() + "- "@ + x + "\n"@);
    assert(Seq::<char>::empty() + "- "@ + x + "\n"@ =~= "- "@ + x + "\n"@);
    assert(meta_footer(DocMetaView { notes: one, ..m }) =~= "\n:::note\n\n"@ + "- "@ + x + "\n"@
        + "\n:::\n"@);
    if m.notes.len() > 0 {
        let ns = m.notes.push(x);
        assert(ns.drop_last() =~= m.notes);
        let old_footer = meta_footer(m);
        let close = "\n:::\n"@;
        assert(close.len() == 5);
        let head = "\n:::note\n\n"@ + notes_list(m.notes);
        assert(old_footer =~= head + close);
        assert(old_footer.take(old_footer.len() - 5) =~= head);
        assert(meta_footer(DocMetaView { notes: ns, ..m }) =~= head + "- "@ + x + "\n"@ + close);
    }
}

} // verus!
