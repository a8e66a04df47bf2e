//! Parsing documentation blocks into documented items.

use vstd::prelude::*;
use crate::text::{
    is_space, utf8_len,    back_bytes_cut, chars_of, contains, contains_seq, count_char, count_of, decimal,
    drop_back_bytes, drop_front_bytes, ends_with, extend_chars, find, front_bytes_cut, has_prefix,
    has_suffix, line_split, lines, push_decimal, repeat_char, repeat_vec, replace, replace_vec,
    rfind, rsplit_once, rsplit_once_vec, same, seqs_of, slice_copy, split_char, split_lines,
    split_on, split_once, split_once_vec, starts_with, string_from, strip_cr, trim,
    trim_start_char, trim_start_char_vec, trim_vec,
};
use crate::types::{
    DocBlock, DocBlockView, DocItem, DocItemView, DocMeta, DocMetaView, empty_function, empty_meta,
    EntryView, EnumItem, EnumItemView, Field, FunctionItem, FunctionItemView, Identifier,
    IdentifierView, Member, opt_item_view, Param, Reference, ReferenceView, Return, ReturnView,
    strings_view, StructItem, StructItemView,
};

verus! {

/// The documentation tags that a comment line can open.
#[derive(Clone, Copy, Debug)]
pub enum Tags {
    NoTag,
    Brief,
    Details,
    Param,
    Return,
    Note,
    See,
    Author,
    Since,
    Version,
    Date,
}

// ---------------------------------------------------------------------------
// Escaping
// ---------------------------------------------------------------------------

/// `s` with `<` and `>` escaped by a backslash.
pub open spec fn clean(s: Seq<char>) -> Seq<char> {
    replace(replace(s, seq!['<'], seq!['\\', '<']), seq!['>'], seq!['\\', '>'])
}

/// `clean(s)`.
pub fn clean_str(s: &[char]) -> (res: Vec<char>)
    ensures
        res@ == clean(s@),
{
    let lt = vec!['<'];
    let lt_esc = vec!['\\', '<'];
    let gt = vec!['>'];
    let gt_esc = vec!['\\', '>'];
    assert(lt@ =~= seq!['<']);
    assert(lt_esc@ =~= seq!['\\', '<']);
    assert(gt@ =~= seq!['>']);
    assert(gt_esc@ =~= seq!['\\', '>']);
    let first = replace_vec(s, &lt, &lt_esc);
    replace_vec(&first, &gt, &gt_esc)
}

/// Whether the characters of `v` spell `lit`.
pub fn spells(v: &[char], lit: &str) -> (res: bool)
    ensures
        res == (v@ == lit@),
{
    let l = chars_of(lit);
    same(v, &l)
}

// ---------------------------------------------------------------------------
// The comment text
// ---------------------------------------------------------------------------

/// The state of reading a comment: what has been gathered, the tag that is
/// open, and the text gathered for it so far.
pub struct DocState {
    pub meta: DocMetaView,
    pub func: FunctionItemView,
    pub tag: Tags,
    pub buf: Seq<char>,
    pub warnings: Seq<Seq<char>>,
}

/// The tag that a line starting with `name` opens; an unknown name keeps the
/// tag that is open.
pub open spec fn tag_for(name: Seq<char>, current: Tags) -> Tags {
    if name == "@brief"@ {
        Tags::Brief
    } else if name == "@param"@ {
        Tags::Param
    } else if name == "@return"@ {
        Tags::Return
    } else if name == "@note"@ {
        Tags::Note
    } else if name == "@see"@ {
        Tags::See
    } else if name == "@author"@ {
        Tags::Author
    } else if name == "@since"@ {
        Tags::Since
    } else if name == "@version"@ {
        Tags::Version
    } else if name == "@date"@ {
        Tags::Date
    } else {
        current
    }
}

/// Storing the text gathered under `tag`: the text, trimmed, becomes the
/// field that the tag names; under `@param` and `@see` it is split at its
/// first space into a name and a description (and dropped if it has none).
pub open spec fn flush(meta: DocMetaView, func: FunctionItemView, tag: Tags, buf: Seq<char>) -> (
    DocMetaView,
    FunctionItemView,
) {
    let t = trim(buf);
    match tag {
        Tags::Brief => (DocMetaView { short_desc: t, ..meta }, func),
        Tags::Details => (DocMetaView { long_desc: t, ..meta }, func),
        Tags::Param => match split_once(t, seq![' ']) {
            Some((name, desc)) => (
                meta,
                FunctionItemView {
                    params: func.params.push(EntryView { first: Seq::empty(), name, desc }),
                    ..func
                },
            ),
            None => (meta, func),
        },
        Tags::Return => (meta, FunctionItemView { ret: ReturnView { decl_type: Seq::empty(), desc: t }, ..func }),
        Tags::Note => (DocMetaView { notes: meta.notes.push(t), ..meta }, func),
        Tags::See => match split_once(t, seq![' ']) {
            Some((subject, desc)) => (
                DocMetaView {
                    references: meta.references.push(ReferenceView { subject, desc }),
                    ..meta
                },
                func,
            ),
            None => (meta, func),
        },
        Tags::Author => (DocMetaView { author: t, ..meta }, func),
        Tags::Since => (DocMetaView { since_ver: t, ..meta }, func),
        Tags::Version => (DocMetaView { latest_ver: t, ..meta }, func),
        Tags::Date => (DocMetaView { created_date: t, ..meta }, func),
        Tags::NoTag => (meta, func),
    }
}

/// The warning that storing the text `buf` under `tag` gives: text gathered
/// while no tag is open is not stored, and is reported (trimmed) instead.
pub open spec fn flush_warnings(tag: Tags, buf: Seq<char>) -> Seq<Seq<char>> {
    if tag == Tags::NoTag {
        seq![trim(buf)]
    } else {
        Seq::empty()
    }
}

/// A comment line with its leading `*`s and surrounding whitespace removed.
pub open spec fn comment_text(raw: Seq<char>) -> Seq<char> {
    trim(trim_start_char(raw, '*'))
}

/// Reading one comment line: a line `@tag text` stores what the open tag
/// gathered and opens `tag` with `text`; an empty line ends a brief
/// description and opens the details; any other line, unless empty or `/`,
/// is added to the open tag's text after a space.
pub open spec fn doc_step(st: DocState, raw: Seq<char>) -> DocState {
    let line = comment_text(raw);
    if starts_with(line, seq!['@']) && split_once(line, seq![' ']) is Some {
        let (name, text) = split_once(line, seq![' ']).unwrap();
        let (meta, func) = if st.buf.len() > 0 {
            flush(st.meta, st.func, st.tag, st.buf)
        } else {
            (st.meta, st.func)
        };
        let warnings = if st.buf.len() > 0 {
            st.warnings + flush_warnings(st.tag, st.buf)
        } else {
            st.warnings
        };
        DocState { meta, func, tag: tag_for(name, st.tag), buf: text, warnings }
    } else if st.tag == Tags::Brief && line.len() == 0 {
        let (meta, func) = flush(st.meta, st.func, st.tag, st.buf);
        DocState {
            meta,
            func,
            tag: Tags::Details,
            buf: Seq::empty(),
            warnings: st.warnings + flush_warnings(st.tag, st.buf),
        }
    } else if line.len() > 0 && line != seq!['/'] {
        DocState { buf: st.buf.push(' ') + line, ..st }
    } else {
        st
    }
}

/// The state after reading the lines `ls` in order.
pub open spec fn doc_state(ls: Seq<Seq<char>>) -> DocState
    decreases ls.len(),
{
    if ls.len() == 0 {
        DocState {
            meta: empty_meta(),
            func: empty_function(),
            tag: Tags::NoTag,
            buf: Seq::empty(),
            warnings: Seq::empty(),
        }
    } else {
        doc_step(doc_state(ls.drop_last()), ls.last())
    }
}

/// What a comment documents: its lines are read in order and the open tag's
/// text is stored at the end.
pub open spec fn parse_doc_spec(doc: Seq<char>) -> (DocMetaView, FunctionItemView) {
    let st = doc_state(lines(doc));
    flush(st.meta, st.func, st.tag, st.buf)
}

/// The warnings that reading a comment gives, in order: each text that was
/// gathered while no tag was open, trimmed (empty when the comment has no tag
/// at all and nothing before its end).
pub open spec fn comment_warnings_spec(doc: Seq<char>) -> Seq<Seq<char>> {
    let st = doc_state(lines(doc));
    st.warnings + flush_warnings(st.tag, st.buf)
}

fn tag_of(name: &[char], current: Tags) -> (res: Tags)
    ensures
        res == tag_for(name@, current),
{
    if spells(name, "@brief") {
        Tags::Brief
    } else if spells(name, "@param") {
        Tags::Param
    } else if spells(name, "@return") {
        Tags::Return
    } else if spells(name, "@note") {
        Tags::Note
    } else if spells(name, "@see") {
        Tags::See
    } else if spells(name, "@author") {
        Tags::Author
    } else if spells(name, "@since") {
        Tags::Since
    } else if spells(name, "@version") {
        Tags::Version
    } else if spells(name, "@date") {
        Tags::Date
    } else {
        current
    }
}

fn push_string(v: &mut Vec<String>, s: String)
    ensures
        strings_view(final(v)@) == strings_view(old(v)@).push(s@),
{
    v.push(s);
    assert(strings_view(v@) =~= strings_view(old(v)@).push(s@));
}

fn save_and_flush(
    meta: &mut DocMeta,
    func: &mut FunctionItem,
    tag: Tags,
    buf: &mut Vec<char>,
    warnings: &mut Vec<String>,
)
    ensures
        (final(meta)@, final(func)@) == flush(old(meta)@, old(func)@, tag, old(buf)@),
        final(buf)@ == Seq::<char>::empty(),
        strings_view(final(warnings)@) == strings_view(old(warnings)@) + flush_warnings(
            tag,
            old(buf)@,
        ),
{
    let t = trim_vec(buf);
    let sp = vec![' '];
    assert(sp@ =~= seq![' ']);
    match tag {
        Tags::Brief => meta.short_desc = string_from(&t),
        Tags::Details => meta.long_desc = string_from(&t),
        Tags::Param => {
            if let Some((name, desc)) = split_once_vec(&t, &sp) {
                let ghost old_params = func@.params;
                func.params.push(
                    Param { decl_type: String::new(), name: string_from(&name), desc: string_from(&desc) },
                );
                assert(func@.params =~= old_params.push(
                    EntryView { first: Seq::empty(), name: name@, desc: desc@ },
                ));
            }
        },
        Tags::Return => {
            func.ret = Return { decl_type: String::new(), desc: string_from(&t) };
        },
        Tags::Note => push_string(&mut meta.notes, string_from(&t)),
        Tags::See => {
            if let Some((subject, desc)) = split_once_vec(&t, &sp) {
                let ghost old_refs = meta@.references;
                meta.references.push(
                    Reference { subject: string_from(&subject), desc: string_from(&desc) },
                );
                assert(meta@.references =~= old_refs.push(
                    ReferenceView { subject: subject@, desc: desc@ },
                ));
            }
        },
        Tags::Author => meta.author = string_from(&t),
        Tags::Since => meta.since_ver = string_from(&t),
        Tags::Version => meta.latest_ver = string_from(&t),
        Tags::Date => meta.created_date = string_from(&t),
        Tags::NoTag => {},
    }
    if matches!(tag, Tags::NoTag) {
        push_string(warnings, string_from(&t));
    }
    assert(strings_view(warnings@) =~= strings_view(old(warnings)@) + flush_warnings(tag, old(buf)@));
    buf.clear();
}

/// Reads a cleaned comment, with the warnings that reading it gives.
fn read_comment(doc: &[char]) -> (res: (DocMeta, FunctionItem, Vec<String>))
    ensures
        (res.0@, res.1@) == parse_doc_spec(doc@),
        strings_view(res.2@) == comment_warnings_spec(doc@),
{
    let mut warnings: Vec<String> = Vec::new();
    let mut meta = DocMeta::default();
    let mut func = FunctionItem::default();
    let mut last_tag = Tags::NoTag;
    let mut buf: Vec<char> = Vec::new();
    let ls = split_lines(doc);
    let n = ls.len();
    let sp = vec![' '];
    let at = vec!['@'];
    let slash = vec!['/'];
    assert(sp@ =~= seq![' ']);
    assert(at@ =~= seq!['@']);
    assert(slash@ =~= seq!['/']);
    assert(strings_view(warnings@) =~= Seq::<Seq<char>>::empty());
    for i in 0..n
        invariant
            n == ls@.len(),
            seqs_of(ls@) == lines(doc@),
            sp@ == seq![' '],
            at@ == seq!['@'],
            slash@ == seq!['/'],
            doc_state(lines(doc@).take(i as int)) == (DocState {
                meta: meta@,
                func: func@,
                tag: last_tag,
                buf: buf@,
                warnings: strings_view(warnings@),
            }),
    {
        let ghost ls_view = lines(doc@);
        assert(ls_view.take(i + 1).drop_last() == ls_view.take(i as int));
        assert(ls_view[i as int] == ls@[i as int]@);
        let stripped = trim_start_char_vec(&ls[i], '*');
        let line = trim_vec(&stripped);
        let mut handled = false;
        if has_prefix(&line, &at) {
            if let Some((name, text)) = split_once_vec(&line, &sp) {
                if buf.len() > 0 {
                    save_and_flush(&mut meta, &mut func, last_tag, &mut buf, &mut warnings);
                }
                last_tag = tag_of(&name, last_tag);
                buf = text;
                handled = true;
            }
        }
        if !handled {
            if matches!(last_tag, Tags::Brief) && line.len() == 0 {
                save_and_flush(&mut meta, &mut func, last_tag, &mut buf, &mut warnings);
                last_tag = Tags::Details;
            } else if line.len() > 0 && !same(&line, &slash) {
                buf.push(' ');
                extend_chars(&mut buf, &line);
            }
        }
    }
    assert(lines(doc@).take(n as int) == lines(doc@));
    save_and_flush(&mut meta, &mut func, last_tag, &mut buf, &mut warnings);
    (meta, func, warnings)
}

/// Reads a cleaned comment into the item's description and the function
/// parts (parameters and return value) that it documents.
pub fn parse_doc(doc: &[char]) -> (res: (DocMeta, FunctionItem))
    ensures
        (res.0@, res.1@) == parse_doc_spec(doc@),
{
    let (meta, func, _) = read_comment(doc);
    (meta, func)
}

/// The warnings that reading a cleaned comment gives, in order: each text
/// gathered while no tag was open, trimmed.
pub fn comment_warnings(doc: &[char]) -> (res: Vec<String>)
    ensures
        strings_view(res@) == comment_warnings_spec(doc@),
{
    let (_, _, warnings) = read_comment(doc);
    warnings
}

/// The warnings that reading a block's comment gives (the comment is read
/// with `<` and `>` escaped, as `parse_doc_block` reads it).
pub fn block_warnings(block: &DocBlock) -> (res: Vec<String>)
    ensures
        strings_view(res@) == comment_warnings_spec(clean(block.doc@)),
{
    let raw_doc = chars_of(block.doc.as_str());
    let doc = clean_str(&raw_doc);
    comment_warnings(&doc)
}

// ---------------------------------------------------------------------------
// Function signatures
// ---------------------------------------------------------------------------

/// A declared type and name with the name's `*`s moved to the type: when the
/// name holds `k > 0` of them, the type gains a space and `k` stars and the
/// name loses its first `k` bytes; `None` where that cut is not at a
/// character boundary.
pub open spec fn split_pointer(ty: Seq<char>, name: Seq<char>) -> Option<(Seq<char>, Seq<char>)> {
    let k = count_char(name, '*');
    if k > 0 {
        match drop_front_bytes(name, k) {
            Some(rest) => Some((ty + seq![' '] + repeat_char('*', k), rest)),
            None => None,
        }
    } else {
        Some((ty, name))
    }
}

/// A parameter after reading its declaration `piece`: when the declaration's
/// last word, without its `*`s, is the parameter's name, the rest of the
/// declaration is the parameter's type.
pub open spec fn typed_param(p: EntryView, piece: Seq<char>) -> Option<EntryView> {
    match rsplit_once(trim(piece), seq![' ']) {
        None => Some(p),
        Some((ty, name)) => match split_pointer(ty, name) {
            None => None,
            Some((t, n)) => if p.name == n {
                Some(EntryView { first: t, ..p })
            } else {
                Some(p)
            },
        },
    }
}

/// The first `i` parameters after pairing them, in order, with the
/// declarations `pieces` (a parameter with no declaration stays as it is).
pub open spec fn typed_prefix(ps: Seq<EntryView>, pieces: Seq<Seq<char>>, i: nat) -> Option<
    Seq<EntryView>,
>
    decreases i,
{
    if i == 0 {
        Some(Seq::empty())
    } else {
        match typed_prefix(ps, pieces, (i - 1) as nat) {
            None => None,
            Some(q) => if i - 1 < pieces.len() {
                match typed_param(ps[i - 1], pieces[i - 1]) {
                    None => None,
                    Some(p) => Some(q.push(p)),
                }
            } else {
                Some(q.push(ps[i - 1]))
            },
        }
    }
}

/// Reading a function's declaration `sig` into `func`: the text before the
/// first `(` is the return type and the name (split at its last space, with
/// the name's `*`s moved to the type); the text after it, less its last two
/// bytes, is split at commas into the parameters' declarations. `None` where
/// a byte cut splits a character or runs past the text.
pub open spec fn parse_func_sig_spec(sig: Seq<char>, func: FunctionItemView) -> Option<
    FunctionItemView,
> {
    match split_once(sig, seq!['(']) {
        None => Some(func),
        Some((rest, params)) => match rsplit_once(rest, seq![' ']) {
            None => Some(func),
            Some((rt, nm)) => match split_pointer(rt, nm) {
                None => None,
                Some((ret_type, name)) => match drop_back_bytes(params, 2) {
                    None => None,
                    Some(list) => {
                        let pieces = split_char(list, ',');
                        match typed_prefix(func.params, pieces, func.params.len()) {
                            None => None,
                            Some(ps) => Some(
                                FunctionItemView {
                                    meta: DocMetaView {
                                        identifier: IdentifierView { original: name, alias: name },
                                        ..func.meta
                                    },
                                    params: ps,
                                    ret: ReturnView { decl_type: ret_type, ..func.ret },
                                },
                            ),
                        }
                    },
                },
            },
        },
    }
}

/// `split_pointer(ty, name)`.
fn split_pointer_vec(ty: Vec<char>, name: Vec<char>) -> (res: Option<(Vec<char>, Vec<char>)>)
    ensures
        match res {
            Some((t, n)) => split_pointer(ty@, name@) == Some((t@, n@)),
            None => split_pointer(ty@, name@) is None,
        },
{
    let k = count_of(&name, '*');
    if k > 0 {
        match front_bytes_cut(&name, k) {
            Some(i) => {
                let mut t = ty;
                t.push(' ');
                let stars = repeat_vec('*', k);
                extend_chars(&mut t, &stars);
                let n = slice_copy(&name, i, name.len());
                assert(n@ =~= name@.skip(i as int));
                Some((t, n))
            },
            None => None,
        }
    } else {
        Some((ty, name))
    }
}

fn typed_param_exec(p: &Param, piece: &[char]) -> (res: Option<Param>)
    ensures
        match res {
            Some(q) => typed_param(p@, piece@) == Some(q@),
            None => typed_param(p@, piece@) is None,
        },
{
    let t = trim_vec(piece);
    let sp = vec![' '];
    assert(sp@ =~= seq![' ']);
    let copy = Param { decl_type: p.decl_type.clone(), name: p.name.clone(), desc: p.desc.clone() };
    match rsplit_once_vec(&t, &sp) {
        None => Some(copy),
        Some((ty, name)) => match split_pointer_vec(ty, name) {
            None => None,
            Some((ty2, name2)) => {
                let pname = chars_of(p.name.as_str());
                if same(&pname, &name2) {
                    Some(Param { decl_type: string_from(&ty2), name: copy.name, desc: copy.desc })
                } else {
                    Some(copy)
                }
            },
        },
    }
}

/// The models of a sequence of parameters, fields or members.
pub open spec fn entries_view<T: View<V = EntryView>>(v: Seq<T>) -> Seq<EntryView> {
    Seq::new(v.len(), |i: int| v[i]@)
}

/// Once pairing fails it fails for every longer prefix.
proof fn lemma_typed_prefix_fails(ps: Seq<EntryView>, pieces: Seq<Seq<char>>, i: nat, j: nat)
    requires
        i <= j,
        typed_prefix(ps, pieces, i) is None,
    ensures
        typed_prefix(ps, pieces, j) is None,
    decreases j - i,
{
    if i < j {
        lemma_typed_prefix_fails(ps, pieces, i, (j - 1) as nat);
    }
}

/// `parse_func_sig_spec(sig, func)`.
#[verifier::loop_isolation(false)]
pub fn parse_func_sig(sig: &[char], func: FunctionItem) -> (res: Option<FunctionItem>)
    ensures
        match res {
            Some(f) => parse_func_sig_spec(sig@, func@) == Some(f@),
            None => parse_func_sig_spec(sig@, func@) is None,
        },
{
    let open = vec!['('];
    let sp = vec![' '];
    assert(open@ =~= seq!['(']);
    assert(sp@ =~= seq![' ']);
    let (rest, params) = match split_once_vec(sig, &open) {
        None => return Some(func),
        Some(parts) => parts,
    };
    let (rt, nm) = match rsplit_once_vec(&rest, &sp) {
        None => return Some(func),
        Some(parts) => parts,
    };
    let (ret_type, name) = match split_pointer_vec(rt, nm) {
        None => return None,
        Some(parts) => parts,
    };
    let j = match back_bytes_cut(&params, 2) {
        None => return None,
        Some(j) => j,
    };
    let list = slice_copy(&params, 0, j);
    assert(list@ =~= params@.take(j as int));
    let pieces = split_on(&list, ',');
    let ghost piece_views = split_char(list@, ',');
    let mut typed: Vec<Param> = Vec::new();
    let n = func.params.len();
    for i in 0..n
        invariant
            n == func.params@.len(),
            seqs_of(pieces@) == piece_views,
            typed@.len() == i,
            typed_prefix(func@.params, piece_views, i as nat) == Some(entries_view(typed@)),
    {
        let p = &func.params[i];
        assert(func@.params[i as int] == p@);
        let ghost before = entries_view(typed@);
        if i < pieces.len() {
            assert(piece_views[i as int] == pieces@[i as int]@);
            match typed_param_exec(p, &pieces[i]) {
                None => {
                    proof {
                        lemma_typed_prefix_fails(func@.params, piece_views, (i + 1) as nat, n as nat);
                    }
                    return None;
                },
                Some(q) => {
                    typed.push(q);
                },
            }
        } else {
            typed.push(Param { decl_type: p.decl_type.clone(), name: p.name.clone(), desc: p.desc.clone() });
        }
        assert(entries_view(typed@) =~= before.push(typed@[i as int]@));
    }
    let name_str = string_from(&name);
    let alias_str = string_from(&name);
    let ghost old_func = func@;
    let mut func = func;
    func.meta.identifier = Identifier { original: name_str, alias: alias_str };
    func.ret.decl_type = string_from(&ret_type);
    func.params = typed;
    assert(func@.params =~= entries_view(typed@));
    Some(func)
}

// ---------------------------------------------------------------------------
// Enumeration and structure declarations
// ---------------------------------------------------------------------------

/// The name after `keyword` and before `{` on a line that starts with
/// `keyword`, trimmed, when it is not empty.
pub open spec fn typedef_name(line: Seq<char>, keyword: Seq<char>) -> Option<Seq<char>> {
    if starts_with(line, keyword) {
        match split_once(line, keyword) {
            Some((_, rest)) => match split_once(rest, seq!['{']) {
                Some((id, _)) => if trim(id).len() > 0 {
                    Some(trim(id))
                } else {
                    None
                },
                None => None,
            },
            None => None,
        }
    } else {
        None
    }
}

/// The declaration (commas removed, trimmed) and the description (its last
/// two bytes removed, trimmed) of a line with a trailing `/**< ...` comment;
/// `Some(None)` for a line without one, `None` where that byte cut splits a
/// character or runs past the text.
pub open spec fn member_doc(line: Seq<char>) -> Option<Option<(Seq<char>, Seq<char>)>> {
    if contains(line, "/**<"@) {
        match rsplit_once(line, "/**< "@) {
            Some((dec, doc)) => match drop_back_bytes(doc, 2) {
                Some(d) => Some(Some((trim(replace(dec, seq![','], Seq::empty())), trim(d)))),
                None => None,
            },
            None => Some(None),
        }
    } else {
        Some(None)
    }
}

/// The name after the last `}` of a line that ends with `;`, without its last
/// byte and trimmed; `Some(None)` for other lines, `None` where that byte
/// cut splits a character.
pub open spec fn closing_alias(line: Seq<char>) -> Option<Option<Seq<char>>> {
    if ends_with(line, seq![';']) {
        match rsplit_once(line, seq!['}']) {
            Some((_, a)) => match drop_back_bytes(a, 1) {
                Some(b) => Some(Some(trim(b))),
                None => None,
            },
            None => Some(None),
        }
    } else {
        Some(None)
    }
}

pub open spec fn with_original(meta: DocMetaView, id: Seq<char>) -> DocMetaView {
    DocMetaView { identifier: IdentifierView { original: id, ..meta.identifier }, ..meta }
}

pub open spec fn with_alias(meta: DocMetaView, alias: Seq<char>) -> DocMetaView {
    DocMetaView { identifier: IdentifierView { alias, ..meta.identifier }, ..meta }
}

/// The meta data after the `typedef` line and the closing line of a
/// declaration have been read.
pub open spec fn named(meta: DocMetaView, line: Seq<char>, keyword: Seq<char>, alias: Option<Seq<char>>) -> DocMetaView {
    let m = match typedef_name(line, keyword) {
        Some(id) => with_original(meta, id),
        None => meta,
    };
    match alias {
        Some(a) => with_alias(m, a),
        None => m,
    }
}

/// An enumeration member from its declaration: `name = value`, or a bare
/// name whose value is its position among the documented members.
pub open spec fn enum_member(dec: Seq<char>, desc: Seq<char>, index: nat) -> EntryView {
    match split_once(dec, seq!['=']) {
        Some((name, value)) => EntryView { first: trim(value), name, desc },
        None => EntryView { first: decimal(index), name: dec, desc },
    }
}

/// An enumeration read so far, and how many documented members it has.
pub struct EnumState {
    pub item: EnumItemView,
    pub index: nat,
}

/// Reading one line of an enumeration's declaration.
pub open spec fn enum_step(st: EnumState, raw: Seq<char>) -> Option<EnumState> {
    let line = trim(raw);
    match member_doc(line) {
        None => None,
        Some(md) => match closing_alias(line) {
            None => None,
            Some(alias) => {
                let meta = named(st.item.meta, line, "typedef enum"@, alias);
                match md {
                    Some((dec, desc)) => Some(
                        EnumState {
                            item: EnumItemView {
                                meta,
                                members: st.item.members.push(enum_member(dec, desc, st.index)),
                            },
                            index: st.index + 1,
                        },
                    ),
                    None => Some(EnumState { item: EnumItemView { meta, ..st.item }, index: st.index }),
                }
            },
        },
    }
}

/// Reading the lines `ls` of an enumeration's declaration in order.
pub open spec fn enum_fold(ls: Seq<Seq<char>>, init: EnumState) -> Option<EnumState>
    decreases ls.len(),
{
    if ls.len() == 0 {
        Some(init)
    } else {
        match enum_fold(ls.drop_last(), init) {
            None => None,
            Some(st) => enum_step(st, ls.last()),
        }
    }
}

/// Reading an enumeration's declaration `sig` into `item`; `None` where a
/// byte cut is impossible.
pub open spec fn parse_enum_sig_spec(sig: Seq<char>, item: EnumItemView) -> Option<EnumItemView> {
    match enum_fold(lines(sig), EnumState { item, index: 0 }) {
        Some(st) => Some(st.item),
        None => None,
    }
}

/// A structure field from its declaration `type name`; the name's `*`s move
/// to the type, and then the name also loses its last byte. `Some(None)` for
/// a declaration without a space, `None` where a byte cut is impossible.
pub open spec fn struct_field(dec: Seq<char>, desc: Seq<char>) -> Option<Option<EntryView>> {
    match rsplit_once(dec, seq![' ']) {
        None => Some(None),
        Some((ty, name)) => {
            let k = count_char(name, '*');
            if k > 0 {
                match drop_front_bytes(name, k) {
                    None => None,
                    Some(n1) => match drop_back_bytes(n1, 1) {
                        None => None,
                        Some(n2) => Some(
                            Some(
                                EntryView {
                                    first: ty + seq![' '] + repeat_char('*', k),
                                    name: n2,
                                    desc,
                                },
                            ),
                        ),
                    },
                }
            } else {
                Some(Some(EntryView { first: ty, name, desc }))
            }
        },
    }
}

/// Reading one line of a structure's declaration.
pub open spec fn struct_step(item: StructItemView, raw: Seq<char>) -> Option<StructItemView> {
    let line = trim(raw);
    match member_doc(line) {
        None => None,
        Some(md) => {
            let fields = match md {
                Some((dec, desc)) => match struct_field(dec, desc) {
                    None => None,
                    Some(Some(f)) => Some(item.fields.push(f)),
                    Some(None) => Some(item.fields),
                },
                None => Some(item.fields),
            };
            match fields {
                None => None,
                Some(fields) => match closing_alias(line) {
                    None => None,
                    Some(alias) => Some(
                        StructItemView { meta: named(item.meta, line, "typedef struct"@, alias), fields },
                    ),
                },
            }
        },
    }
}

/// Reading the lines `ls` of a structure's declaration in order.
pub open spec fn struct_fold(ls: Seq<Seq<char>>, init: StructItemView) -> Option<StructItemView>
    decreases ls.len(),
{
    if ls.len() == 0 {
        Some(init)
    } else {
        match struct_fold(ls.drop_last(), init) {
            None => None,
            Some(item) => struct_step(item, ls.last()),
        }
    }
}

/// Reading a structure's declaration `sig` into `item`; `None` where a
/// byte cut is impossible.
pub open spec fn parse_struct_sig_spec(sig: Seq<char>, item: StructItemView) -> Option<StructItemView> {
    struct_fold(lines(sig), item)
}

fn typedef_name_exec(line: &[char], keyword: &str) -> (res: Option<Vec<char>>)
    ensures
        match res {
            Some(id) => typedef_name(line@, keyword@) == Some(id@),
            None => typedef_name(line@, keyword@) is None,
        },
{
    let kw = chars_of(keyword);
    if !has_prefix(line, &kw) {
        return None;
    }
    let brace = vec!['{'];
    assert(brace@ =~= seq!['{']);
    match split_once_vec(line, &kw) {
        Some((_, rest)) => match split_once_vec(&rest, &brace) {
            Some((id, _)) => {
                let t = trim_vec(&id);
                if t.len() > 0 {
                    Some(t)
                } else {
                    None
                }
            },
            None => None,
        },
        None => None,
    }
}

fn member_doc_exec(line: &[char]) -> (res: Option<Option<(Vec<char>, Vec<char>)>>)
    ensures
        match res {
            Some(Some((dec, desc))) => member_doc(line@) == Some(Some((dec@, desc@))),
            Some(None) => member_doc(line@) == Some(None::<(Seq<char>, Seq<char>)>),
            None => member_doc(line@) is None,
        },
{
    let open = chars_of("/**<");
    if !contains_seq(line, &open) {
        return Some(None);
    }
    let open_sp = chars_of("/**< ");
    match rsplit_once_vec(line, &open_sp) {
        Some((dec, doc)) => match back_bytes_cut(&doc, 2) {
            Some(j) => {
                let d = slice_copy(&doc, 0, j);
                assert(d@ =~= doc@.take(j as int));
                let comma = vec![','];
                let nothing: Vec<char> = Vec::new();
                assert(comma@ =~= seq![',']);
                assert(nothing@ =~= Seq::<char>::empty());
                let dec2 = replace_vec(&dec, &comma, &nothing);
                Some(Some((trim_vec(&dec2), trim_vec(&d))))
            },
            None => None,
        },
        None => Some(None),
    }
}

fn closing_alias_exec(line: &[char]) -> (res: Option<Option<Vec<char>>>)
    ensures
        match res {
            Some(Some(a)) => closing_alias(line@) == Some(Some(a@)),
            Some(None) => closing_alias(line@) == Some(None::<Seq<char>>),
            None => closing_alias(line@) is None,
        },
{
    let semi = vec![';'];
    let brace = vec!['}'];
    assert(semi@ =~= seq![';']);
    assert(brace@ =~= seq!['}']);
    if !has_suffix(line, &semi) {
        return Some(None);
    }
    match rsplit_once_vec(line, &brace) {
        Some((_, a)) => match back_bytes_cut(&a, 1) {
            Some(j) => {
                let b = slice_copy(&a, 0, j);
                assert(b@ =~= a@.take(j as int));
                Some(Some(trim_vec(&b)))
            },
            None => None,
        },
        None => Some(None),
    }
}

/// Applies `named` to `meta` in place.
fn name_meta(meta: &mut DocMeta, line: &[char], keyword: &str, alias: Option<Vec<char>>)
    ensures
        final(meta)@ == named(old(meta)@, line@, keyword@, match alias {
            Some(a) => Some(a@),
            None => None,
        }),
{
    if let Some(id) = typedef_name_exec(line, keyword) {
        meta.identifier.original = string_from(&id);
    }
    if let Some(a) = alias {
        meta.identifier.alias = string_from(&a);
    }
}

fn enum_member_exec(dec: &[char], desc: &[char], index: usize) -> (res: Member)
    ensures
        res@ == enum_member(dec@, desc@, index as nat),
{
    let eq = vec!['='];
    assert(eq@ =~= seq!['=']);
    match split_once_vec(dec, &eq) {
        Some((name, value)) => {
            let v = trim_vec(&value);
            Member { value: string_from(&v), name: string_from(&name), desc: string_from(desc) }
        },
        None => {
            let mut digits: Vec<char> = Vec::new();
            push_decimal(&mut digits, index);
            assert(digits@ =~= decimal(index as nat));
            Member { value: string_from(&digits), name: string_from(dec), desc: string_from(desc) }
        },
    }
}

proof fn lemma_enum_fold_fails(ls: Seq<Seq<char>>, init: EnumState, i: int)
    requires
        0 <= i <= ls.len(),
        enum_fold(ls.take(i), init) is None,
    ensures
        enum_fold(ls, init) is None,
    decreases ls.len() - i,
{
    if i < ls.len() {
        assert(ls.take(i + 1).drop_last() =~= ls.take(i));
        lemma_enum_fold_fails(ls, init, i + 1);
    } else {
        assert(ls.take(i) =~= ls);
    }
}

proof fn lemma_struct_fold_fails(ls: Seq<Seq<char>>, init: StructItemView, i: int)
    requires
        0 <= i <= ls.len(),
        struct_fold(ls.take(i), init) is None,
    ensures
        struct_fold(ls, init) is None,
    decreases ls.len() - i,
{
    if i < ls.len() {
        assert(ls.take(i + 1).drop_last() =~= ls.take(i));
        lemma_struct_fold_fails(ls, init, i + 1);
    } else {
        assert(ls.take(i) =~= ls);
    }
}

/// `parse_enum_sig_spec(sig, item)`.
#[verifier::loop_isolation(false)]
pub fn parse_enum_sig(sig: &[char], item: EnumItem) -> (res: Option<EnumItem>)
    ensures
        match res {
            Some(e) => parse_enum_sig_spec(sig@, item@) == Some(e@),
            None => parse_enum_sig_spec(sig@, item@) is None,
        },
{
    let ghost init = EnumState { item: item@, index: 0 };
    let mut item = item;
    let mut member_index: usize = 0;
    let ls = split_lines(sig);
    let n = ls.len();
    for i in 0..n
        invariant
            n == ls@.len(),
            seqs_of(ls@) == lines(sig@),
            member_index <= i,
            enum_fold(lines(sig@).take(i as int), init) == Some(
                EnumState { item: item@, index: member_index as nat },
            ),
    {
        let ghost lv = lines(sig@);
        assert(lv.take(i + 1).drop_last() == lv.take(i as int));
        assert(lv[i as int] == ls@[i as int]@);
        let line = trim_vec(&ls[i]);
        let md = match member_doc_exec(&line) {
            None => {
                proof {
                    lemma_enum_fold_fails(lv, init, i + 1);
                }
                return None;
            },
            Some(md) => md,
        };
        let alias = match closing_alias_exec(&line) {
            None => {
                proof {
                    lemma_enum_fold_fails(lv, init, i + 1);
                }
                return None;
            },
            Some(alias) => alias,
        };
        name_meta(&mut item.meta, &line, "typedef enum", alias);
        if let Some((dec, desc)) = md {
            let ghost before = item@.members;
            item.members.push(enum_member_exec(&dec, &desc, member_index));
            assert(item@.members =~= before.push(enum_member(dec@, desc@, member_index as nat)));
            member_index = member_index + 1;
        }
    }
    assert(lines(sig@).take(n as int) == lines(sig@));
    Some(item)
}

fn struct_field_exec(dec: &[char], desc: &[char]) -> (res: Option<Option<Field>>)
    ensures
        match res {
            Some(Some(f)) => struct_field(dec@, desc@) == Some(Some(f@)),
            Some(None) => struct_field(dec@, desc@) == Some(None::<EntryView>),
            None => struct_field(dec@, desc@) is None,
        },
{
    let sp = vec![' '];
    assert(sp@ =~= seq![' ']);
    match rsplit_once_vec(dec, &sp) {
        None => Some(None),
        Some((ty, name)) => {
            let k = count_of(&name, '*');
            if k > 0 {
                match front_bytes_cut(&name, k) {
                    None => None,
                    Some(i) => {
                        let n1 = slice_copy(&name, i, name.len());
                        assert(n1@ =~= name@.skip(i as int));
                        match back_bytes_cut(&n1, 1) {
                            None => None,
                            Some(j) => {
                                let n2 = slice_copy(&n1, 0, j);
                                assert(n2@ =~= n1@.take(j as int));
                                let mut t = ty;
                                t.push(' ');
                                let stars = repeat_vec('*', k);
                                extend_chars(&mut t, &stars);
                                assert(t@ =~= ty@ + seq![' '] + repeat_char('*', k as nat));
                                Some(
                                    Some(
                                        Field {
                                            decl_type: string_from(&t),
                                            name: string_from(&n2),
                                            desc: string_from(desc),
                                        },
                                    ),
                                )
                            },
                        }
                    },
                }
            } else {
                Some(
                    Some(
                        Field {
                            decl_type: string_from(&ty),
                            name: string_from(&name),
                            desc: string_from(desc),
                        },
                    ),
                )
            }
        },
    }
}

/// `parse_struct_sig_spec(sig, item)`.
#[verifier::loop_isolation(false)]
pub fn parse_struct_sig(sig: &[char], item: StructItem) -> (res: Option<StructItem>)
    ensures
        match res {
            Some(st) => parse_struct_sig_spec(sig@, item@) == Some(st@),
            None => parse_struct_sig_spec(sig@, item@) is None,
        },
{
    let ghost init = item@;
    let mut item = item;
    let ls = split_lines(sig);
    let n = ls.len();
    for i in 0..n
        invariant
            n == ls@.len(),
            seqs_of(ls@) == lines(sig@),
            struct_fold(lines(sig@).take(i as int), init) == Some(item@),
    {
        let ghost lv = lines(sig@);
        assert(lv.take(i + 1).drop_last() == lv.take(i as int));
        assert(lv[i as int] == ls@[i as int]@);
        let line = trim_vec(&ls[i]);
        let md = match member_doc_exec(&line) {
            None => {
                proof {
                    lemma_struct_fold_fails(lv, init, i + 1);
                }
                return None;
            },
            Some(md) => md,
        };
        let field = match md {
            Some((dec, desc)) => match struct_field_exec(&dec, &desc) {
                None => {
                    proof {
                        lemma_struct_fold_fails(lv, init, i + 1);
                    }
                    return None;
                },
                Some(f) => f,
            },
            None => None,
        };
        let alias = match closing_alias_exec(&line) {
            None => {
                proof {
                    lemma_struct_fold_fails(lv, init, i + 1);
                }
                return None;
            },
            Some(alias) => alias,
        };
        if let Some(f) = field {
            let ghost before = item@.fields;
            item.fields.push(f);
            assert(item@.fields =~= before.push(f@));
        }
        name_meta(&mut item.meta, &line, "typedef struct", alias);
    }
    assert(lines(sig@).take(n as int) == lines(sig@));
    Some(item)
}

// ---------------------------------------------------------------------------
// Documentation blocks
// ---------------------------------------------------------------------------

/// What reading a documentation block gives: `Some(Some(item))` for a
/// function (a declaration that does not start with `typedef`), a
/// `typedef enum` or a `typedef struct`; `Some(None)` for any other
/// `typedef`; `None` where a byte cut splits a character or runs past the
/// text. The comment and the trimmed declaration are read with `<` and `>`
/// escaped.
pub open spec fn parse_doc_block_spec(b: DocBlockView) -> Option<Option<DocItemView>> {
    let sig = clean(trim(b.signature));
    let (meta0, func0) = parse_doc_spec(clean(b.doc));
    let meta = DocMetaView { signature: sig, ..meta0 };
    if !starts_with(sig, "typedef"@) {
        match parse_func_sig_spec(sig, FunctionItemView { meta, ..func0 }) {
            Some(f) => Some(Some(DocItemView::Function(f))),
            None => None,
        }
    } else if starts_with(sig, "typedef enum"@) {
        match parse_enum_sig_spec(sig, EnumItemView { meta, members: Seq::empty() }) {
            Some(e) => Some(Some(DocItemView::Enum(e))),
            None => None,
        }
    } else if starts_with(sig, "typedef struct"@) {
        match parse_struct_sig_spec(sig, StructItemView { meta, fields: Seq::empty() }) {
            Some(st) => Some(Some(DocItemView::Struct(st))),
            None => None,
        }
    } else {
        Some(None)
    }
}

/// Reads a documentation block, or returns `None` on the inputs where
/// `parse_doc_block` has no result (its byte cuts would split a character or
/// run past the text).
pub fn try_parse_doc_block(block: &DocBlock) -> (res: Option<Option<DocItem>>)
    ensures
        match res {
            Some(item) => parse_doc_block_spec(block@) == Some(opt_item_view(item)),
            None => parse_doc_block_spec(block@) is None,
        },
{
    let raw_sig = chars_of(block.signature.as_str());
    let trimmed = trim_vec(&raw_sig);
    let sig = clean_str(&trimmed);
    let raw_doc = chars_of(block.doc.as_str());
    let doc = clean_str(&raw_doc);
    let (mut meta, func) = parse_doc(&doc);
    meta.signature = string_from(&sig);
    let typedef = chars_of("typedef");
    let typedef_enum = chars_of("typedef enum");
    let typedef_struct = chars_of("typedef struct");
    if !has_prefix(&sig, &typedef) {
        let mut func = func;
        func.meta = meta;
        match parse_func_sig(&sig, func) {
            Some(f) => Some(Some(DocItem::Function(f))),
            None => None,
        }
    } else if has_prefix(&sig, &typedef_enum) {
        let item = EnumItem { meta, members: Vec::new() };
        assert(item@.members =~= Seq::<EntryView>::empty());
        match parse_enum_sig(&sig, item) {
            Some(e) => Some(Some(DocItem::Enum(e))),
            None => None,
        }
    } else if has_prefix(&sig, &typedef_struct) {
        let item = StructItem { meta, fields: Vec::new() };
        assert(item@.fields =~= Seq::<EntryView>::empty());
        match parse_struct_sig(&sig, item) {
            Some(st) => Some(Some(DocItem::Struct(st))),
            None => None,
        }
    } else {
        Some(None)
    }
}

/// Reads a documentation block into the function, enumeration or structure
/// that it documents; `None` for a `typedef` of any other kind.
pub fn parse_doc_block(block: &DocBlock) -> (res: Option<DocItem>)
    requires
        parse_doc_block_spec(block@) is Some,
    ensures
        parse_doc_block_spec(block@) == Some(opt_item_view(res)),
{
    match try_parse_doc_block(block) {
        Some(item) => item,
        None => None,
    }
}

// ---------------------------------------------------------------------------
// Laws
// ---------------------------------------------------------------------------

proof fn lemma_enum_fold_keeps_signature(ls: Seq<Seq<char>>, init: EnumState)
    ensures
        enum_fold(ls, init) matches Some(st) ==> st.item.meta.signature == init.item.meta.signature,
    decreases ls.len(),
{
    if ls.len() > 0 {
        lemma_enum_fold_keeps_signature(ls.drop_last(), init);
    }
}

proof fn lemma_struct_fold_keeps_signature(ls: Seq<Seq<char>>, init: StructItemView)
    ensures
        struct_fold(ls, init) matches Some(item) ==> item.meta.signature == init.meta.signature,
    decreases ls.len(),
{
    if ls.len() > 0 {
        lemma_struct_fold_keeps_signature(ls.drop_last(), init);
    }
}

/// What a block documents is decided by its declaration, trimmed and
/// escaped: a function when it does not start with `typedef`, an enumeration
/// when it starts with `typedef enum`, a structure when it starts with
/// `typedef struct`, and nothing for any other `typedef`. The item keeps that
/// declaration as its signature.
pub proof fn law_item_kind(b: DocBlockView)
    requires
        parse_doc_block_spec(b) is Some,
    ensures
        ({
            let sig = clean(trim(b.signature));
            match parse_doc_block_spec(b).unwrap() {
                Some(DocItemView::Function(f)) => !starts_with(sig, "typedef"@) && f.meta.signature
                    == sig,
                Some(DocItemView::Enum(e)) => starts_with(sig, "typedef"@) && starts_with(
                    sig,
                    "typedef enum"@,
                ) && e.meta.signature == sig,
                Some(DocItemView::Struct(st)) => starts_with(sig, "typedef"@) && !starts_with(
                    sig,
                    "typedef enum"@,
                ) && starts_with(sig, "typedef struct"@) && st.meta.signature == sig,
                None => starts_with(sig, "typedef"@) && !starts_with(sig, "typedef enum"@)
                    && !starts_with(sig, "typedef struct"@),
            }
        }),
{
    let sig = clean(trim(b.signature));
    let (meta0, func0) = parse_doc_spec(clean(b.doc));
    let meta = DocMetaView { signature: sig, ..meta0 };
    lemma_enum_fold_keeps_signature(lines(sig), EnumState { item: EnumItemView { meta, members: Seq::empty() }, index: 0 });
    lemma_struct_fold_keeps_signature(lines(sig), StructItemView { meta, fields: Seq::empty() });
}

/// Every `c` in `s` comes right after a backslash.
pub open spec fn is_escaped(s: Seq<char>, c: char) -> bool {
    forall|i: int| 0 <= i < s.len() && #[trigger] s[i] == c ==> i > 0 && s[i - 1] == '\\'
}

proof fn lemma_replace_absent(s: Seq<char>, c: char, to: Seq<char>)
    requires
        forall|i: int| 0 <= i < s.len() ==> s[i] != c,
    ensures
        replace(s, seq![c], to) == s,
    decreases s.len(),
{
    if s.len() > 0 {
        assert(!starts_with(s, seq![c])) by {
            if starts_with(s, seq![c]) {
                assert(s.take(1)[0] == s[0]);
            }
        }
        lemma_replace_absent(s.drop_first(), c, to);
        assert(seq![s[0]] + s.drop_first() =~= s);
    }
}

proof fn lemma_replace_head(s: Seq<char>, c: char, to: Seq<char>)
    requires
        s.len() > 0,
    ensures
        s[0] == c ==> replace(s, seq![c], to) == to + replace(s.drop_first(), seq![c], to),
        s[0] != c ==> replace(s, seq![c], to) == seq![s[0]] + replace(s.drop_first(), seq![c], to),
        replace(s, seq![c], to).len() >= replace(s.drop_first(), seq![c], to).len(),
{
    if s[0] == c {
        assert(s.take(1) =~= seq![c]);
        assert(s.skip(1) =~= s.drop_first());
    } else {
        assert(!starts_with(s, seq![c])) by {
            if starts_with(s, seq![c]) {
                assert(s.take(1)[0] == s[0]);
            }
        }
    }
}

proof fn lemma_escape_one(s: Seq<char>, c: char)
    requires
        c != '\\',
    ensures
        is_escaped(replace(s, seq![c], seq!['\\', c]), c),
    decreases s.len(),
{
    if s.len() > 0 {
        let rest = s.drop_first();
        lemma_escape_one(rest, c);
        lemma_replace_head(s, c, seq!['\\', c]);
        let big_r = replace(rest, seq![c], seq!['\\', c]);
        let r = replace(s, seq![c], seq!['\\', c]);
        if s[0] == c {
            assert forall|i: int| 0 <= i < r.len() && #[trigger] r[i] == c implies i > 0 && r[i - 1] == '\\' by {
                if i >= 2 {
                    assert(r[i] == big_r[i - 2]);
                    if i > 2 {
                        assert(r[i - 1] == big_r[i - 3]);
                    }
                }
            }
        } else {
            assert forall|i: int| 0 <= i < r.len() && #[trigger] r[i] == c implies i > 0 && r[i - 1] == '\\' by {
                if i >= 1 {
                    assert(r[i] == big_r[i - 1]);
                    if i > 1 {
                        assert(r[i - 1] == big_r[i - 2]);
                    }
                }
            }
        }
    }
}

/// Every `d` after the first character of `s` comes right after a backslash.
spec fn escaped_after_first(s: Seq<char>, d: char) -> bool {
    forall|i: int| 0 < i < s.len() && #[trigger] s[i] == d ==> s[i - 1] == '\\'
}

proof fn lemma_escape_keeps(t: Seq<char>, c: char, d: char)
    requires
        c != d,
        c != '\\',
        d != '\\',
        escaped_after_first(t, d),
    ensures
        escaped_after_first(replace(t, seq![c], seq!['\\', c]), d),
        replace(t, seq![c], seq!['\\', c]).len() > 0 <==> t.len() > 0,
        t.len() > 0 ==> (replace(t, seq![c], seq!['\\', c])[0] == d <==> t[0] == d),
    decreases t.len(),
{
    if t.len() > 0 {
        let rest = t.drop_first();
        assert(escaped_after_first(rest, d)) by {
            assert forall|i: int| 0 < i < rest.len() && #[trigger] rest[i] == d implies rest[i - 1] == '\\' by {
                assert(t[i + 1] == d);
            }
        }
        lemma_escape_keeps(rest, c, d);
        lemma_replace_head(t, c, seq!['\\', c]);
        let big_r = replace(rest, seq![c], seq!['\\', c]);
        let r = replace(t, seq![c], seq!['\\', c]);
        if t[0] == c {
            assert forall|j: int| 0 < j < r.len() && #[trigger] r[j] == d implies r[j - 1] == '\\' by {
                if j == 2 {
                    assert(big_r[0] == d);
                    assert(t[1] == d);
                } else if j > 2 {
                    assert(r[j] == big_r[j - 2]);
                    assert(r[j - 1] == big_r[j - 3]);
                }
            }
        } else {
            assert forall|j: int| 0 < j < r.len() && #[trigger] r[j] == d implies r[j - 1] == '\\' by {
                assert(r[j] == big_r[j - 1]);
                if j == 1 {
                    assert(t[1] == d);
                } else {
                    assert(r[j - 1] == big_r[j - 2]);
                }
            }
        }
    }
}

/// Text without `<` and `>` is left as it is by escaping.
pub proof fn law_clean_keeps_plain_text(s: Seq<char>)
    requires
        forall|i: int| 0 <= i < s.len() ==> s[i] != '<' && s[i] != '>',
    ensures
        clean(s) == s,
{
    lemma_replace_absent(s, '<', seq!['\\', '<']);
    lemma_replace_absent(s, '>', seq!['\\', '>']);
}

/// After escaping, every `<` and every `>` comes right after a backslash.
pub proof fn law_clean_escapes_brackets(s: Seq<char>)
    ensures
        is_escaped(clean(s), '<'),
        is_escaped(clean(s), '>'),
{
    let r1 = replace(s, seq!['<'], seq!['\\', '<']);
    lemma_escape_one(s, '<');
    lemma_escape_keeps(r1, '>', '<');
    lemma_escape_one(r1, '>');
    let r2 = clean(s);
    assert forall|i: int| 0 <= i < r2.len() && #[trigger] r2[i] == '<' implies i > 0 && r2[i - 1] == '\\' by {
        if i == 0 {
            assert(r1[0] == '<');
        }
    }
}

/// No `*` in `s` is immediately followed by `<`.
pub open spec fn no_star_before_lt(s: Seq<char>) -> bool {
    forall|i: int| 0 < i < s.len() && #[trigger] s[i] == '<' ==> s[i - 1] != '*'
}

proof fn lemma_drop_last_keeps(s: Seq<char>)
    requires
        no_star_before_lt(s),
        s.len() > 0,
    ensures
        no_star_before_lt(s.drop_last()),
{
    let t = s.drop_last();
    assert forall|i: int| 0 < i < t.len() && #[trigger] t[i] == '<' implies t[i - 1] != '*' by {
        assert(s[i] == t[i]);
    }
}

proof fn lemma_drop_first_keeps(s: Seq<char>)
    requires
        no_star_before_lt(s),
        s.len() > 0,
    ensures
        no_star_before_lt(s.drop_first()),
{
    let t = s.drop_first();
    assert forall|i: int| 0 < i < t.len() && #[trigger] t[i] == '<' implies t[i - 1] != '*' by {
        assert(s[i + 1] == t[i]);
    }
}

proof fn lemma_line_split_keeps(s: Seq<char>)
    requires
        no_star_before_lt(s),
    ensures
        forall|k: int| 0 <= k < line_split(s).0.len() ==> no_star_before_lt(#[trigger] line_split(s).0[k]),
        no_star_before_lt(line_split(s).1),
        line_split(s).1.len() > 0 ==> s.len() > 0 && line_split(s).1.last() == s.last(),
    decreases s.len(),
{
    if s.len() > 0 {
        let s0 = s.drop_last();
        lemma_drop_last_keeps(s);
        lemma_line_split_keeps(s0);
        let (done, cur) = line_split(s0);
        if s.last() == '\n' {
            let l = strip_cr(cur);
            if cur.len() > 0 && cur.last() == '\r' {
                lemma_drop_last_keeps(cur);
            }
            let nd = done.push(l);
            assert forall|k: int| 0 <= k < nd.len() implies no_star_before_lt(#[trigger] nd[k]) by {
                if k < done.len() {
                    assert(nd[k] == done[k]);
                }
            }
        } else {
            let c = cur.push(s.last());
            assert forall|i: int| 0 < i < c.len() && #[trigger] c[i] == '<' implies c[i - 1] != '*' by {
                if i == c.len() - 1 {
                    assert(s[s.len() - 1] == '<');
                    assert(c[i - 1] == s[s.len() - 2]);
                } else {
                    assert(c[i] == cur[i]);
                }
            }
        }
    }
}

proof fn lemma_lines_keep(s: Seq<char>)
    requires
        no_star_before_lt(s),
    ensures
        forall|k: int| 0 <= k < lines(s).len() ==> no_star_before_lt(#[trigger] lines(s)[k]),
{
    lemma_line_split_keeps(s);
    let (done, cur) = line_split(s);
    if cur.len() > 0 {
        let ls = done.push(cur);
        assert forall|k: int| 0 <= k < ls.len() implies no_star_before_lt(#[trigger] ls[k]) by {
            if k < done.len() {
                assert(ls[k] == done[k]);
            }
        }
    }
}

proof fn lemma_trim_start_keeps(s: Seq<char>)
    requires
        no_star_before_lt(s),
    ensures
        no_star_before_lt(crate::text::trim_start(s)),
    decreases s.len(),
{
    if s.len() > 0 && crate::text::is_space(s[0]) {
        lemma_drop_first_keeps(s);
        lemma_trim_start_keeps(s.drop_first());
    }
}

proof fn lemma_trim_end_keeps(s: Seq<char>)
    requires
        no_star_before_lt(s),
    ensures
        no_star_before_lt(crate::text::trim_end(s)),
    decreases s.len(),
{
    if s.len() > 0 && crate::text::is_space(s.last()) {
        lemma_drop_last_keeps(s);
        lemma_trim_end_keeps(s.drop_last());
    }
}

/// A line in which no `*` is followed by `<` has no member comment.
proof fn lemma_no_member_doc(line: Seq<char>)
    requires
        no_star_before_lt(line),
    ensures
        member_doc(line) == Some(None::<(Seq<char>, Seq<char>)>),
{
    reveal_strlit("/**<");
    if contains(line, "/**<"@) {
        crate::text::lemma_find_from_bounds(line, "/**<"@, 0);
        let k = find(line, "/**<"@).unwrap();
        assert(line.subrange(k, k + 4)[3] == '<');
        assert(line.subrange(k, k + 4)[2] == '*');
        assert(line[k + 3] == '<');
        assert(false);
    }
}

/// The closing line of a declaration can always be read.
proof fn lemma_closing_alias_total(line: Seq<char>)
    ensures
        closing_alias(line) is Some,
{
    if ends_with(line, seq![';']) {
        if let Some((_, a)) = rsplit_once(line, seq!['}']) {
            crate::text::lemma_rfind_below_bounds(line, seq!['}'], line.len() + 1int);
            let k = rfind(line, seq!['}']).unwrap();
            assert(line.subrange(k, k + 1)[0] == line[k]);
            assert(line.skip(line.len() - 1)[0] == line[line.len() - 1]);
            assert(k != line.len() - 1);
            assert(a.len() > 0);
            assert(a.last() == line[line.len() - 1]);
            assert(drop_back_bytes(a.drop_last(), 0) is Some);
        }
    }
}

proof fn lemma_enum_fold_without_members(ls: Seq<Seq<char>>, init: EnumState)
    requires
        forall|k: int| 0 <= k < ls.len() ==> no_star_before_lt(trim(#[trigger] ls[k])),
    ensures
        enum_fold(ls, init) matches Some(st) && st.item.members == init.item.members,
    decreases ls.len(),
{
    if ls.len() > 0 {
        let l0 = ls.drop_last();
        assert forall|k: int| 0 <= k < l0.len() implies no_star_before_lt(trim(#[trigger] l0[k])) by {
            assert(l0[k] == ls[k]);
        }
        lemma_enum_fold_without_members(l0, init);
        let line = trim(ls.last());
        lemma_no_member_doc(line);
        lemma_closing_alias_total(line);
    }
}

proof fn lemma_struct_fold_without_fields(ls: Seq<Seq<char>>, init: StructItemView)
    requires
        forall|k: int| 0 <= k < ls.len() ==> no_star_before_lt(trim(#[trigger] ls[k])),
    ensures
        struct_fold(ls, init) matches Some(item) && item.fields == init.fields,
    decreases ls.len(),
{
    if ls.len() > 0 {
        let l0 = ls.drop_last();
        assert forall|k: int| 0 <= k < l0.len() implies no_star_before_lt(trim(#[trigger] l0[k])) by {
            assert(l0[k] == ls[k]);
        }
        lemma_struct_fold_without_fields(l0, init);
        let line = trim(ls.last());
        lemma_no_member_doc(line);
        lemma_closing_alias_total(line);
    }
}

/// Every line of an escaped declaration, trimmed, has no `*` right before a `<`.
proof fn lemma_escaped_lines(sig: Seq<char>)
    ensures
        forall|k: int|
            0 <= k < lines(clean(sig)).len() ==> no_star_before_lt(trim(#[trigger] lines(clean(sig))[k])),
{
    let c = clean(sig);
    law_clean_escapes_brackets(sig);
    assert(no_star_before_lt(c));
    lemma_lines_keep(c);
    assert forall|k: int| 0 <= k < lines(c).len() implies no_star_before_lt(trim(#[trigger] lines(c)[k])) by {
        lemma_trim_start_keeps(lines(c)[k]);
        lemma_trim_end_keeps(crate::text::trim_start(lines(c)[k]));
    }
}

/// A block whose declaration starts with `typedef` is always read: escaping
/// turns every `/**<` into `/**\<`, so no member comment is found and no byte
/// cut is made on a member's description.
pub proof fn law_typedef_blocks_are_read(b: DocBlockView)
    requires
        starts_with(clean(trim(b.signature)), "typedef"@),
    ensures
        parse_doc_block_spec(b) is Some,
{
    law_blocks_list_no_members(b);
}

/// Enumerations and structures read from a block list no members or fields:
/// the declaration is escaped before it is read, so the `/**<` that marks a
/// member's comment never occurs in it.
pub proof fn law_blocks_list_no_members(b: DocBlockView)
    ensures
        starts_with(clean(trim(b.signature)), "typedef"@) ==> parse_doc_block_spec(b) is Some,
        match parse_doc_block_spec(b) {
            Some(Some(DocItemView::Enum(e))) => e.members.len() == 0,
            Some(Some(DocItemView::Struct(st))) => st.fields.len() == 0,
            _ => true,
        },
{
    let sig = clean(trim(b.signature));
    let (meta0, func0) = parse_doc_spec(clean(b.doc));
    let meta = DocMetaView { signature: sig, ..meta0 };
    lemma_escaped_lines(trim(b.signature));
    lemma_enum_fold_without_members(
        lines(sig),
        EnumState { item: EnumItemView { meta, members: Seq::empty() }, index: 0 },
    );
    lemma_struct_fold_without_fields(lines(sig), StructItemView { meta, fields: Seq::empty() });
}

/// Members are numbered by position: while an enumeration's declaration is
/// read from an empty member list, the number that the next member without an
/// explicit value receives is the number of members read so far.
pub proof fn law_enum_members_numbered_by_position(ls: Seq<Seq<char>>, item: EnumItemView)
    requires
        item.members.len() == 0,
    ensures
        enum_fold(ls, EnumState { item, index: 0 }) matches Some(st) ==> st.index
            == st.item.members.len(),
    decreases ls.len(),
{
    if ls.len() > 0 {
        law_enum_members_numbered_by_position(ls.drop_last(), item);
    }
}

// ---------------------------------------------------------------------------
// Laws on the meaning of declarations and comments
// ---------------------------------------------------------------------------

/// A function declaration `T name(args);` whose name holds no space, `*` or
/// `(`, and whose return type `T` holds no `(`, is read with `name` as its
/// declared name and alias and `T` as its return type, whatever spaces `T`
/// holds: the name is the last word before `(`, the return type is all the
/// text before that word. With no documented parameters it is always read.
pub proof fn law_function_name_is_last_word(
    t: Seq<char>,
    name: Seq<char>,
    args: Seq<char>,
    func: FunctionItemView,
)
    requires
        forall|k: int| 0 <= k < t.len() ==> t[k] != '(',
        forall|k: int| 0 <= k < name.len() ==> name[k] != ' ' && name[k] != '*' && name[k] != '(',
    ensures
        func.params.len() == 0 ==> parse_func_sig_spec(
            t + seq![' '] + name + seq!['('] + args + seq![')', ';'],
            func,
        ) is Some,
        parse_func_sig_spec(t + seq![' '] + name + seq!['('] + args + seq![')', ';'], func) matches Some(
            f,
        ) ==> f.meta.identifier.original == name && f.meta.identifier.alias == name && f.ret.decl_type
            == t,
{
    let sig = t + seq![' '] + name + seq!['('] + args + seq![')', ';'];
    let a = t + seq![' '] + name;
    let b = args + seq![')', ';'];
    assert(sig =~= a + seq!['('] + b);
    assert forall|k: int| 0 <= k < a.len() implies a[k] != '(' by {
        if k < t.len() {
            assert(a[k] == t[k]);
        } else if k > t.len() {
            assert(a[k] == name[k - t.len() - 1]);
        }
    }
    crate::text::lemma_find_char(a, '(', b);
    crate::text::lemma_rfind_char(t, ' ', name);
    crate::text::lemma_count_absent(name, '*');
    assert(b.drop_last() =~= args + seq![')']);
    assert((args + seq![')']).drop_last() =~= args);
    assert(b.last() == ';');
    assert(utf8_len(';') == 1);
    assert(utf8_len(')') == 1);
    assert(drop_back_bytes(args, 0) == Some(args));
    assert(drop_back_bytes(args + seq![')'], 1) == Some(args));
    assert(drop_back_bytes(b, 2) == Some(args));
    if func.params.len() == 0 {
        assert(typed_prefix(func.params, split_char(args, ','), 0) == Some(Seq::<EntryView>::empty()));
    }
}

/// A comment made of a tag line `kw x` and a wrapped line `w` ends with the
/// tag's text `x w` gathered, nothing stored and nothing reported.
proof fn lemma_tag_then_wrapped_line(doc: Seq<char>, kw: Seq<char>, x: Seq<char>, w: Seq<char>)
    requires
        lines(doc) == seq![kw + seq![' '] + x, w],
        kw.len() > 0,
        kw[0] == '@',
        forall|k: int| 0 <= k < kw.len() ==> kw[k] != ' ',
        x.len() > 0,
        !is_space(x.last()),
        w.len() > 0,
        !is_space(w[0]),
        !is_space(w.last()),
        w[0] != '*',
        w[0] != '@',
        w != seq!['/'],
    ensures
        doc_state(lines(doc)) == (DocState {
            meta: empty_meta(),
            func: empty_function(),
            tag: tag_for(kw, Tags::NoTag),
            buf: x + seq![' '] + w,
            warnings: Seq::empty(),
        }),
{
    let l1 = kw + seq![' '] + x;
    let ls = seq![l1, w];
    assert(ls.drop_last() =~= seq![l1]);
    assert(seq![l1].drop_last() =~= Seq::<Seq<char>>::empty());
    assert(l1[0] == '@');
    assert(l1.last() == x.last());
    crate::text::lemma_trim_start_char_none(l1, '*');
    crate::text::lemma_trim_trimmed(l1);
    assert(comment_text(l1) == l1);
    assert(l1.take(1) =~= seq!['@']);
    crate::text::lemma_find_char(kw, ' ', x);
    crate::text::lemma_trim_start_char_none(w, '*');
    crate::text::lemma_trim_trimmed(w);
    assert(comment_text(w) == w);
    assert(!starts_with(w, seq!['@'])) by {
        if starts_with(w, seq!['@']) {
            assert(w.take(1)[0] == w[0]);
        }
    }
    let st0 = doc_state(Seq::<Seq<char>>::empty());
    assert(doc_state(seq![l1]) == doc_step(st0, l1));
    let st1 = DocState {
        meta: empty_meta(),
        func: empty_function(),
        tag: tag_for(kw, Tags::NoTag),
        buf: x,
        warnings: Seq::empty(),
    };
    assert(doc_step(st0, l1) == st1);
    assert(doc_state(ls) == doc_step(st1, w));
    assert(x.push(' ') + w =~= x + seq![' '] + w);
}

/// A wrapped line continues a parameter's description: `@param name d`
/// followed by a line `w` documents the parameter `name` as `d w`.
pub proof fn law_wrapped_param_description(doc: Seq<char>, name: Seq<char>, d: Seq<char>, w: Seq<char>)
    requires
        lines(doc) == seq!["@param"@ + seq![' '] + name + seq![' '] + d, w],
        name.len() > 0,
        !is_space(name[0]),
        forall|k: int| 0 <= k < name.len() ==> name[k] != ' ',
        d.len() > 0,
        !is_space(d.last()),
        w.len() > 0,
        !is_space(w[0]),
        !is_space(w.last()),
        w[0] != '*',
        w[0] != '@',
        w != seq!['/'],
    ensures
        parse_doc_spec(doc).1.params == seq![EntryView { first: Seq::empty(), name, desc: d + seq![' '] + w }],
{
    reveal_strlit("@param");
    reveal_strlit("@brief");
    let x = name + seq![' '] + d;
    assert("@param"@ + seq![' '] + name + seq![' '] + d =~= "@param"@ + seq![' '] + x);
    assert(x.last() == d.last());
    lemma_tag_then_wrapped_line(doc, "@param"@, x, w);
    assert("@param"@[1] != "@brief"@[1]);
    assert(tag_for("@param"@, Tags::NoTag) == Tags::Param);
    let buf = x + seq![' '] + w;
    assert(buf[0] == name[0]);
    assert(buf.last() == w.last());
    crate::text::lemma_trim_trimmed(buf);
    assert(buf =~= name + seq![' '] + (d + seq![' '] + w));
    crate::text::lemma_find_char(name, ' ', d + seq![' '] + w);
    assert(Seq::<EntryView>::empty().push(
        EntryView { first: Seq::empty(), name, desc: d + seq![' '] + w },
    ) =~= seq![EntryView { first: Seq::empty(), name, desc: d + seq![' '] + w }]);
}

/// A wrapped line continues the description of the return value: `@return x`
/// followed by a line `w` describes the return value as `x w`.
pub proof fn law_wrapped_return_description(doc: Seq<char>, x: Seq<char>, w: Seq<char>)
    requires
        lines(doc) == seq!["@return"@ + seq![' '] + x, w],
        x.len() > 0,
        !is_space(x[0]),
        !is_space(x.last()),
        w.len() > 0,
        !is_space(w[0]),
        !is_space(w.last()),
        w[0] != '*',
        w[0] != '@',
        w != seq!['/'],
    ensures
        parse_doc_spec(doc).1.ret.desc == x + seq![' '] + w,
{
    reveal_strlit("@return");
    reveal_strlit("@brief");
    reveal_strlit("@param");
    assert("@return"@[2] != "@param"@[2]);
    lemma_tag_then_wrapped_line(doc, "@return"@, x, w);
    assert("@return"@[1] != "@brief"@[1]);
    assert(tag_for("@return"@, Tags::NoTag) == Tags::Return);
    let buf = x + seq![' '] + w;
    assert(buf[0] == x[0]);
    assert(buf.last() == w.last());
    crate::text::lemma_trim_trimmed(buf);
}

/// A wrapped line continues a note: `@note x` followed by a line `w` gives
/// the note `x w`.
pub proof fn law_wrapped_note(doc: Seq<char>, x: Seq<char>, w: Seq<char>)
    requires
        lines(doc) == seq!["@note"@ + seq![' '] + x, w],
        x.len() > 0,
        !is_space(x[0]),
        !is_space(x.last()),
        w.len() > 0,
        !is_space(w[0]),
        !is_space(w.last()),
        w[0] != '*',
        w[0] != '@',
        w != seq!['/'],
    ensures
        parse_doc_spec(doc).0.notes == seq![x + seq![' '] + w],
{
    reveal_strlit("@note");
    reveal_strlit("@brief");
    reveal_strlit("@param");
    reveal_strlit("@return");
    assert("@note"@[1] != "@param"@[1]);
    assert("@note"@[1] != "@return"@[1]);
    lemma_tag_then_wrapped_line(doc, "@note"@, x, w);
    assert("@note"@[1] != "@brief"@[1]);
    assert(tag_for("@note"@, Tags::NoTag) == Tags::Note);
    let buf = x + seq![' '] + w;
    assert(buf[0] == x[0]);
    assert(buf.last() == w.last());
    crate::text::lemma_trim_trimmed(buf);
    assert(Seq::<Seq<char>>::empty().push(buf) =~= seq![buf]);
}

} // verus!
