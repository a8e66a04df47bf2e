//! The documentation items and their mathematical models.

use vstd::prelude::*;

verus! {

/// A documentation comment and the declaration that follows it.
pub struct DocBlock {
    pub doc: String,
    pub signature: String,
}

/// What a documented declaration turned out to be.
pub enum DocItem {
    Function(FunctionItem),
    Struct(StructItem),
    Enum(EnumItem),
}

/// What every documented item carries.
#[derive(Debug)]
pub struct DocMeta {
    pub signature: String,
    pub identifier: Identifier,
    pub short_desc: String,
    pub long_desc: String,
    pub author: String,
    pub since_ver: String,
    pub latest_ver: String,
    pub created_date: String,
    pub notes: Vec<String>,
    pub references: Vec<Reference>,
}

/// The declared name of an item and the name it is published under.
#[derive(Debug)]
pub struct Identifier {
    pub original: String,
    pub alias: String,
}

/// A "see also" entry.
#[derive(Debug)]
pub struct Reference {
    pub subject: String,
    pub desc: String,
}

/// A documented function.
#[derive(Debug)]
pub struct FunctionItem {
    pub meta: DocMeta,
    pub params: Vec<Param>,
    pub ret: Return,
}

/// A documented enumeration.
pub struct EnumItem {
    pub meta: DocMeta,
    pub members: Vec<Member>,
}

/// A documented structure.
pub struct StructItem {
    pub meta: DocMeta,
    pub fields: Vec<Field>,
}

/// A function parameter.
#[derive(Debug)]
pub struct Param {
    pub decl_type: String,
    pub name: String,
    pub desc: String,
}

/// A structure field.
pub struct Field {
    pub decl_type: String,
    pub name: String,
    pub desc: String,
}

/// An enumeration member.
pub struct Member {
    pub value: String,
    pub name: String,
    pub desc: String,
}

/// What a function returns.
#[derive(Debug)]
pub struct Return {
    pub decl_type: String,
    pub desc: String,
}

// ---------------------------------------------------------------------------
// Models
// ---------------------------------------------------------------------------

pub struct DocBlockView {
    pub doc: Seq<char>,
    pub signature: Seq<char>,
}

pub struct IdentifierView {
    pub original: Seq<char>,
    pub alias: Seq<char>,
}

pub struct ReferenceView {
    pub subject: Seq<char>,
    pub desc: Seq<char>,
}

pub struct DocMetaView {
    pub signature: Seq<char>,
    pub identifier: IdentifierView,
    pub short_desc: Seq<char>,
    pub long_desc: Seq<char>,
    pub author: Seq<char>,
    pub since_ver: Seq<char>,
    pub latest_ver: Seq<char>,
    pub created_date: Seq<char>,
    pub notes: Seq<Seq<char>>,
    pub references: Seq<ReferenceView>,
}

/// A parameter, a field or an enumeration member: a type or value, a name
/// and a description.
pub struct EntryView {
    pub first: Seq<char>,
    pub name: Seq<char>,
    pub desc: Seq<char>,
}

pub struct ReturnView {
    pub decl_type: Seq<char>,
    pub desc: Seq<char>,
}

pub struct FunctionItemView {
    pub meta: DocMetaView,
    pub params: Seq<EntryView>,
    pub ret: ReturnView,
}

pub struct EnumItemView {
    pub meta: DocMetaView,
    pub members: Seq<EntryView>,
}

pub struct StructItemView {
    pub meta: DocMetaView,
    pub fields: Seq<EntryView>,
}

pub enum DocItemView {
    Function(FunctionItemView),
    Struct(StructItemView),
    Enum(EnumItemView),
}

/// The character sequences of a sequence of strings.
pub open spec fn strings_view(v: Seq<String>) -> Seq<Seq<char>> {
    Seq::new(v.len(), |i: int| v[i]@)
}

impl View for DocBlock {
    type V = DocBlockView;

    open spec fn view(&self) -> DocBlockView {
        DocBlockView { doc: self.doc@, signature: self.signature@ }
    }
}

impl View for Identifier {
    type V = IdentifierView;

    open spec fn view(&self) -> IdentifierView {
        IdentifierView { original: self.original@, alias: self.alias@ }
    }
}

impl View for Reference {
    type V = ReferenceView;

    open spec fn view(&self) -> ReferenceView {
        ReferenceView { subject: self.subject@, desc: self.desc@ }
    }
}

impl View for DocMeta {
    type V = DocMetaView;

    open spec fn view(&self) -> DocMetaView {
        DocMetaView {
            signature: self.signature@,
            identifier: self.identifier@,
            short_desc: self.short_desc@,
            long_desc: self.long_desc@,
            author: self.author@,
            since_ver: self.since_ver@,
            latest_ver: self.latest_ver@,
            created_date: self.created_date@,
            notes: strings_view(self.notes@),
            references: Seq::new(self.references@.len(), |i: int| self.references@[i]@),
        }
    }
}

impl View for Param {
    type V = EntryView;

    open spec fn view(&self) -> EntryView {
        EntryView { first: self.decl_type@, name: self.name@, desc: self.desc@ }
    }
}

impl View for Field {
    type V = EntryView;

    open spec fn view(&self) -> EntryView {
        EntryView { first: self.decl_type@, name: self.name@, desc: self.desc@ }
    }
}

impl View for Member {
    type V = EntryView;

    open spec fn view(&self) -> EntryView {
        EntryView { first: self.value@, name: self.name@, desc: self.desc@ }
    }
}

impl View for Return {
    type V = ReturnView;

    open spec fn view(&self) -> ReturnView {
        ReturnView { decl_type: self.decl_type@, desc: self.desc@ }
    }
}

impl View for FunctionItem {
    type V = FunctionItemView;

    open spec fn view(&self) -> FunctionItemView {
        FunctionItemView {
            meta: self.meta@,
            params: Seq::new(self.params@.len(), |i: int| self.params@[i]@),
            ret: self.ret@,
        }
    }
}

impl View for EnumItem {
    type V = EnumItemView;

    open spec fn view(&self) -> EnumItemView {
        EnumItemView {
            meta: self.meta@,
            members: Seq::new(self.members@.len(), |i: int| self.members@[i]@),
        }
    }
}

impl View for StructItem {
    type V = StructItemView;

    open spec fn view(&self) -> StructItemView {
        StructItemView {
            meta: self.meta@,
            fields: Seq::new(self.fields@.len(), |i: int| self.fields@[i]@),
        }
    }
}

impl View for DocItem {
    type V = DocItemView;

    open spec fn view(&self) -> DocItemView {
        match self {
            DocItem::Function(f) => DocItemView::Function(f@),
            DocItem::Struct(s) => DocItemView::Struct(s@),
            DocItem::Enum(e) => DocItemView::Enum(e@),
        }
    }
}

/// The model of an optional item.
pub open spec fn opt_item_view(o: Option<DocItem>) -> Option<DocItemView> {
    match o {
        Some(item) => Some(item@),
        None => None,
    }
}

// ---------------------------------------------------------------------------
// Empty values
// ---------------------------------------------------------------------------

pub open spec fn empty_identifier() -> IdentifierView {
    IdentifierView { original: Seq::empty(), alias: Seq::empty() }
}

pub open spec fn empty_meta() -> DocMetaView {
    DocMetaView {
        signature: Seq::empty(),
        identifier: empty_identifier(),
        short_desc: Seq::empty(),
        long_desc: Seq::empty(),
        author: Seq::empty(),
        since_ver: Seq::empty(),
        latest_ver: Seq::empty(),
        created_date: Seq::empty(),
        notes: Seq::empty(),
        references: Seq::empty(),
    }
}

pub open spec fn empty_return() -> ReturnView {
    ReturnView { decl_type: Seq::empty(), desc: Seq::empty() }
}

pub open spec fn empty_function() -> FunctionItemView {
    FunctionItemView { meta: empty_meta(), params: Seq::empty(), ret: empty_return() }
}

impl Default for Identifier {
    fn default() -> (res: Self)
        ensures
            res@ == empty_identifier(),
    {
        Identifier { original: String::new(), alias: String::new() }
    }
}

impl Default for Reference {
    fn default() -> (res: Self)
        ensures
            res@ == (ReferenceView { subject: Seq::empty(), desc: Seq::empty() }),
    {
        Reference { subject: String::new(), desc: String::new() }
    }
}

impl Default for Return {
    fn default() -> (res: Self)
        ensures
            res@ == empty_return(),
    {
        Return { decl_type: String::new(), desc: String::new() }
    }
}

impl Default for DocMeta {
    fn default() -> (res: Self)
        ensures
            res@ == empty_meta(),
    {
        let res = DocMeta {
            signature: String::new(),
            identifier: Identifier { original: String::new(), alias: String::new() },
            short_desc: String::new(),
            long_desc: String::new(),
            author: String::new(),
            since_ver: String::new(),
            latest_ver: String::new(),
            created_date: String::new(),
            notes: Vec::new(),
            references: Vec::new(),
        };
        assert(res@.notes =~= Seq::<Seq<char>>::empty());
        assert(res@.references =~= Seq::<ReferenceView>::empty());
        res
    }
}

impl Default for FunctionItem {
    fn default() -> (res: Self)
        ensures
            res@ == empty_function(),
    {
        let res = FunctionItem {
            meta: DocMeta::default(),
            params: Vec::new(),
            ret: Return::default(),
        };
        assert(res@.params =~= Seq::<EntryView>::empty());
        res
    }
}

impl Default for EnumItem {
    fn default() -> (res: Self)
        ensures
            res@ == (EnumItemView { meta: empty_meta(), members: Seq::empty() }),
    {
        let res = EnumItem { meta: DocMeta::default(), members: Vec::new() };
        assert(res@.members =~= Seq::<EntryView>::empty());
        res
    }
}

impl Default for StructItem {
    fn default() -> (res: Self)
        ensures
            res@ == (StructItemView { meta: empty_meta(), fields: Seq::empty() }),
    {
        let res = StructItem { meta: DocMeta::default(), fields: Vec::new() };
        assert(res@.fields =~= Seq::<EntryView>::empty());
        res
    }
}

} // verus!
