//! Finding documentation blocks in the text of a header.

use vstd::prelude::*;
use crate::text::{
    chars_of, ends_with, extend_chars, has_prefix, has_suffix, lines, seqs_of, split_lines,
    starts_with, string_from, trim, trim_vec,
};
use crate::types::{DocBlock, DocBlockView};

verus! {

/// Where the scan is: looking for a comment, inside a comment, or reading
/// the declaration after it.
#[derive(Clone, Copy, Debug)]
pub enum State {
    Scanning,
    CollectingDoc,
    CollectingSig,
}

/// The scan after some lines: where it is, the comment and declaration
/// lines gathered so far, and the blocks completed.
pub struct Scan {
    pub state: State,
    pub doc: Seq<char>,
    pub sig: Seq<char>,
    pub blocks: Seq<DocBlockView>,
}

pub open spec fn initial_scan() -> Scan {
    Scan { state: State::Scanning, doc: Seq::empty(), sig: Seq::empty(), blocks: Seq::empty() }
}

/// Reading one line of a header. A line starting with `/**` opens a comment
/// (the line itself is not kept); the comment's lines are kept, trimmed and
/// each followed by a line feed, up to the line that ends with `*/`; then the
/// declaration's lines are kept the same way up to the line that ends with
/// `;`, which completes a block.
pub open spec fn scan_step(st: Scan, raw: Seq<char>) -> Scan {
    let line = trim(raw);
    match st.state {
        State::Scanning => if starts_with(line, "/**"@) {
            Scan { state: State::CollectingDoc, ..st }
        } else {
            st
        },
        State::CollectingDoc => Scan {
            state: if ends_with(line, "*/"@) {
                State::CollectingSig
            } else {
                State::CollectingDoc
            },
            doc: st.doc + line.push('\n'),
            ..st
        },
        State::CollectingSig => {
            let sig = st.sig + line.push('\n');
            if ends_with(line, seq![';']) {
                Scan {
                    state: State::Scanning,
                    doc: Seq::empty(),
                    sig: Seq::empty(),
                    blocks: st.blocks.push(DocBlockView { doc: st.doc, signature: sig }),
                }
            } else {
                Scan { sig, ..st }
            }
        },
    }
}

/// The scan after reading the lines `ls` in order.
pub open spec fn scan_fold(ls: Seq<Seq<char>>) -> Scan
    decreases ls.len(),
{
    if ls.len() == 0 {
        initial_scan()
    } else {
        scan_step(scan_fold(ls.drop_last()), ls.last())
    }
}

/// The documentation blocks of a header's text.
pub open spec fn doc_blocks_spec(content: Seq<char>) -> Seq<DocBlockView> {
    scan_fold(lines(content)).blocks
}

/// The models of a sequence of blocks.
pub open spec fn blocks_view(v: Seq<DocBlock>) -> Seq<DocBlockView> {
    Seq::new(v.len(), |i: int| v[i]@)
}

/// The documentation blocks of a header's text: each `/** ... */` comment
/// together with the declaration that follows it, up to its `;`.
pub fn get_doc_blocks(content: &str) -> (res: Vec<DocBlock>)
    ensures
        blocks_view(res@) == doc_blocks_spec(content@),
{
    let text = chars_of(content);
    let ls = split_lines(&text);
    let n = ls.len();
    let open = chars_of("/**");
    let close = chars_of("*/");
    let semi = vec![';'];
    assert(semi@ =~= seq![';']);
    let mut blocks: Vec<DocBlock> = Vec::new();
    let mut doc: Vec<char> = Vec::new();
    let mut sig: Vec<char> = Vec::new();
    let mut state = State::Scanning;
    assert(blocks_view(blocks@) =~= Seq::<DocBlockView>::empty());
    assert(doc@ =~= Seq::<char>::empty());
    assert(sig@ =~= Seq::<char>::empty());
    for i in 0..n
        invariant
            n == ls@.len(),
            seqs_of(ls@) == lines(content@),
            open@ == "/**"@,
            close@ == "*/"@,
            semi@ == seq![';'],
            scan_fold(lines(content@).take(i as int)) == (Scan {
                state,
                doc: doc@,
                sig: sig@,
                blocks: blocks_view(blocks@),
            }),
    {
        let ghost lv = lines(content@);
        assert(lv.take(i + 1).drop_last() == lv.take(i as int));
        assert(lv[i as int] == ls@[i as int]@);
        let line = trim_vec(&ls[i]);
        match state {
            State::Scanning => {
                if has_prefix(&line, &open) {
                    state = State::CollectingDoc;
                }
            },
            State::CollectingDoc => {
                extend_chars(&mut doc, &line);
                doc.push('\n');
                assert(doc@ =~= scan_fold(lv.take(i as int)).doc + line@.push('\n'));
                if has_suffix(&line, &close) {
                    state = State::CollectingSig;
                }
            },
            State::CollectingSig => {
                extend_chars(&mut sig, &line);
                sig.push('\n');
                assert(sig@ =~= scan_fold(lv.take(i as int)).sig + line@.push('\n'));
                if has_suffix(&line, &semi) {
                    let ghost before = blocks_view(blocks@);
                    blocks.push(DocBlock { doc: string_from(&doc), signature: string_from(&sig) });
                    assert(blocks_view(blocks@) =~= before.push(
                        DocBlockView { doc: doc@, signature: sig@ },
                    ));
                    doc = Vec::new();
                    sig = Vec::new();
                    state = State::Scanning;
                }
            },
        }
    }
    assert(lines(content@).take(n as int) == lines(content@));
    blocks
}

// ---------------------------------------------------------------------------
// Laws
// ---------------------------------------------------------------------------

/// A block is complete when its comment ends with a line ending in `*/` and
/// its declaration ends with a line ending in `;`.
pub open spec fn is_complete_block(b: DocBlockView) -> bool {
    ends_with(b.doc, "*/"@.push('\n')) && ends_with(b.signature, seq![';', '\n'])
}

/// What holds of every scan: completed blocks are complete, and while the
/// declaration is read the comment already ends with a line ending in `*/`.
pub open spec fn scan_invariant(st: Scan) -> bool {
    &&& forall|i: int| 0 <= i < st.blocks.len() ==> #[trigger] is_complete_block(st.blocks[i])
    &&& st.state == State::CollectingSig ==> ends_with(st.doc, "*/"@.push('\n'))
}

proof fn lemma_ends_with_line(acc: Seq<char>, line: Seq<char>, p: Seq<char>)
    requires
        ends_with(line, p),
    ensures
        ends_with(acc + line.push('\n'), p.push('\n')),
{
    let s = acc + line.push('\n');
    assert(s.skip(s.len() - (p.len() + 1)) =~= p.push('\n'));
}

proof fn lemma_scan_invariant(ls: Seq<Seq<char>>)
    ensures
        scan_invariant(scan_fold(ls)),
    decreases ls.len(),
{
    if ls.len() > 0 {
        lemma_scan_invariant(ls.drop_last());
        let st = scan_fold(ls.drop_last());
        let line = trim(ls.last());
        match st.state {
            State::Scanning => {},
            State::CollectingDoc => {
                if ends_with(line, "*/"@) {
                    lemma_ends_with_line(st.doc, line, "*/"@);
                }
            },
            State::CollectingSig => {
                if ends_with(line, seq![';']) {
                    lemma_ends_with_line(st.sig, line, seq![';']);
                    assert(seq![';'].push('\n') =~= seq![';', '\n']);
                    let b = DocBlockView { doc: st.doc, signature: st.sig + line.push('\n') };
                    let nb = st.blocks.push(b);
                    assert forall|i: int| 0 <= i < nb.len() implies #[trigger] is_complete_block(nb[i]) by {
                        if i < st.blocks.len() {
                            assert(nb[i] == st.blocks[i]);
                        }
                    }
                }
            },
        }
    }
}

/// Every block found in a header is complete: its comment ends with a line
/// ending in `*/` and its declaration with a line ending in `;`.
pub proof fn law_blocks_are_complete(content: Seq<char>)
    ensures
        forall|i: int|
            0 <= i < doc_blocks_spec(content).len() ==> #[trigger] is_complete_block(
                doc_blocks_spec(content)[i],
            ),
{
    lemma_scan_invariant(lines(content));
}

/// The scan from `st` after reading the lines `ls` in order.
spec fn scan_from(st: Scan, ls: Seq<Seq<char>>) -> Scan
    decreases ls.len(),
{
    if ls.len() == 0 {
        st
    } else {
        scan_step(scan_from(st, ls.drop_last()), ls.last())
    }
}

proof fn lemma_scan_from_initial(ls: Seq<Seq<char>>)
    ensures
        scan_from(initial_scan(), ls) == scan_fold(ls),
    decreases ls.len(),
{
    if ls.len() > 0 {
        lemma_scan_from_initial(ls.drop_last());
    }
}

proof fn lemma_scan_concat(ls1: Seq<Seq<char>>, ls2: Seq<Seq<char>>)
    ensures
        scan_fold(ls1 + ls2) == scan_from(scan_fold(ls1), ls2),
    decreases ls2.len(),
{
    if ls2.len() > 0 {
        assert((ls1 + ls2).drop_last() =~= ls1 + ls2.drop_last());
        lemma_scan_concat(ls1, ls2.drop_last());
    } else {
        assert(ls1 + ls2 =~= ls1);
    }
}

proof fn lemma_scan_no_opening(ls: Seq<Seq<char>>)
    requires
        forall|k: int| 0 <= k < ls.len() ==> !starts_with(trim(#[trigger] ls[k]), "/**"@),
    ensures
        scan_fold(ls) == initial_scan(),
    decreases ls.len(),
{
    if ls.len() > 0 {
        let l0 = ls.drop_last();
        assert forall|k: int| 0 <= k < l0.len() implies !starts_with(trim(#[trigger] l0[k]), "/**"@) by {
            assert(l0[k] == ls[k]);
        }
        lemma_scan_no_opening(l0);
        assert(!starts_with(trim(ls[ls.len() - 1]), "/**"@));
    }
}

/// Only a line that starts with `/**` (after trimming) opens a documentation
/// comment: lines before the first such line (plain `/* ... */` comments,
/// directives, declarations) contribute to no block, so a text gives the same
/// blocks as its part after them.
pub proof fn law_blocks_start_at_doc_comments(c: Seq<char>, c2: Seq<char>, ls1: Seq<Seq<char>>)
    requires
        lines(c) == ls1 + lines(c2),
        forall|k: int| 0 <= k < ls1.len() ==> !starts_with(trim(#[trigger] ls1[k]), "/**"@),
    ensures
        doc_blocks_spec(c) == doc_blocks_spec(c2),
{
    lemma_scan_concat(ls1, lines(c2));
    lemma_scan_no_opening(ls1);
    lemma_scan_from_initial(lines(c2));
}

/// A text in which no line starts with `/**` (after trimming) has no
/// documentation blocks.
pub proof fn law_no_doc_comment_no_blocks(c: Seq<char>)
    requires
        forall|k: int| 0 <= k < lines(c).len() ==> !starts_with(trim(#[trigger] lines(c)[k]), "/**"@),
    ensures
        doc_blocks_spec(c).len() == 0,
{
    lemma_scan_no_opening(lines(c));
}

} // verus!
