//! The symbol model: the entities that extraction produces and that every
//! query reads.

use crate::strmap::{position_of, StrMap};
use crate::text::{clone_strings, texts};
use vstd::prelude::*;

verus! {

/// What kind of code entity a symbol is.
#[derive(Debug, Clone, Copy, PartialEq, Eq, Structural)]
pub enum SymbolKind {
    Class,
    Function,
    Method,
    MethodCall,
    Interface,
    Struct,
}

/// Whether a kind declares a type: a class, an interface or a struct.
pub open spec fn is_type_kind(kind: SymbolKind) -> bool {
    kind == SymbolKind::Class || kind == SymbolKind::Interface || kind == SymbolKind::Struct
}

impl SymbolKind {
    /// Whether the kind declares a type.
    pub fn is_type(&self) -> (r: bool)
        ensures
            r == is_type_kind(*self),
    {
        match self {
            SymbolKind::Class => true,
            SymbolKind::Interface => true,
            SymbolKind::Struct => true,
            _ => false,
        }
    }
}

/// Open key-value data attached to a symbol or a field.
pub type Metadata = StrMap<String>;

/// A list of key-value pairs: the mathematical content of a `Metadata`.
pub type Pairs = Seq<(Seq<char>, Seq<char>)>;

/// The pairs that a `Metadata` holds, in insertion order.
pub open spec fn meta_view(m: &Metadata) -> Pairs {
    Seq::new(m.keys().len(), |i: int| (m.keys()[i], m.values()[i]@))
}

/// The keys of a list of pairs.
pub open spec fn pair_keys(pairs: Pairs) -> Seq<Seq<char>> {
    pairs.map_values(|p: (Seq<char>, Seq<char>)| p.0)
}

/// The value that a list of pairs holds for `key`, if any.
pub open spec fn pairs_lookup(pairs: Pairs, key: Seq<char>) -> Option<Seq<char>> {
    match position_of(pair_keys(pairs), key) {
        Some(i) => Some(pairs[i].1),
        None => None,
    }
}

/// A list of pairs after storing `value` under `key`: in place where the
/// key is there already, at the end where it is new.
pub open spec fn pairs_insert(pairs: Pairs, key: Seq<char>, value: Seq<char>) -> Pairs {
    match position_of(pair_keys(pairs), key) {
        Some(i) => pairs.update(i, (key, value)),
        None => pairs.push((key, value)),
    }
}

/// `base` after storing every pair of `extra`, in order.
pub open spec fn pairs_merge(base: Pairs, extra: Pairs) -> Pairs
    decreases extra.len(),
{
    if extra.len() == 0 {
        base
    } else {
        let head = pairs_merge(base, extra.drop_last());
        pairs_insert(head, extra.last().0, extra.last().1)
    }
}

/// A `Metadata` without entries.
pub fn new_metadata() -> (m: Metadata)
    ensures
        meta_view(&m) == Seq::<(Seq<char>, Seq<char>)>::empty(),
{
    let m: Metadata = StrMap::new();
    proof {
        assert(meta_view(&m) =~= Seq::<(Seq<char>, Seq<char>)>::empty());
    }
    m
}

/// Stores `value` under `key` in `m`.
pub fn meta_insert(m: &mut Metadata, key: String, value: String)
    ensures
        meta_view(final(m)) == pairs_insert(meta_view(old(m)), key@, value@),
{
    let ghost before = meta_view(m);
    proof {
        m.lemma_same_len();
        assert(pair_keys(before) =~= m.keys());
    }
    m.insert(key, value);
    proof {
        m.lemma_same_len();
        assert(meta_view(m) =~= pairs_insert(before, key@, value@));
    }
}

/// The value stored under `key` in `m`, if any.
pub fn meta_get<'a>(m: &'a Metadata, key: &str) -> (r: Option<&'a String>)
    ensures
        match r {
            Some(v) => pairs_lookup(meta_view(m), key@) == Some(v@),
            None => pairs_lookup(meta_view(m), key@) is None,
        },
{
    proof {
        assert(pair_keys(meta_view(m)) =~= m.keys());
    }
    m.get(key)
}

/// A copy of `m` with the same pairs in the same order.
pub fn meta_clone(m: &Metadata) -> (r: Metadata)
    ensures
        meta_view(&r) == meta_view(m),
{
    let mut r: Metadata = StrMap::new();
    let mut i: usize = 0;
    proof {
        assert(meta_view(&r) =~= meta_view(m).take(0));
    }
    while i < m.len()
        invariant
            i <= m.keys().len(),
            r.keys() == m.keys().take(i as int),
            meta_view(&r) == meta_view(m).take(i as int),
        decreases m.keys().len() - i,
    {
        let ghost before = meta_view(&r);
        let ghost before_keys = r.keys();
        let ghost before_values = r.values();
        proof {
            r.lemma_same_len();
            m.lemma_same_len();
        }
        let k = m.key_at(i).clone();
        let v = m.value_at(i).clone();
        proof {
            use_type_invariant(m);
            m.lemma_distinct();
            if before_keys.contains(k@) {
                let j = before_keys.index_of(k@);
                assert(0 <= j < i && before_keys[j] == k@);
                assert(m.keys()[j] == m.keys()[i as int]);
            }
        }
        r.insert(k, v);
        proof {
            r.lemma_same_len();
            m.lemma_same_len();
            assert(r.keys() =~= m.keys().take(i + 1));
            assert(meta_view(&r) =~= meta_view(m).take(i + 1));
        }
        i += 1;
    }
    proof {
        assert(meta_view(m).take(m.keys().len() as int) =~= meta_view(m));
    }
    r
}

/// A named member of a type-like symbol.
#[derive(Debug)]
pub struct Field {
    pub name: String,
    pub field_type: String,
    pub start_line: u32,
    pub end_line: u32,
    pub modifiers: Vec<String>,
    pub metadata: Metadata,
}

/// The mathematical content of a `Field`.
pub struct FieldView {
    pub name: Seq<char>,
    pub field_type: Seq<char>,
    pub start_line: u32,
    pub end_line: u32,
    pub modifiers: Seq<Seq<char>>,
    pub metadata: Pairs,
}

impl View for Field {
    type V = FieldView;

    open spec fn view(&self) -> FieldView {
        FieldView {
            name: self.name@,
            field_type: self.field_type@,
            start_line: self.start_line,
            end_line: self.end_line,
            modifiers: texts(self.modifiers@),
            metadata: meta_view(&self.metadata),
        }
    }
}

/// The contents of a list of fields.
pub open spec fn field_views(v: Seq<Field>) -> Seq<FieldView> {
    v.map_values(|f: Field| f@)
}

impl Field {
    /// A copy with the same content.
    pub fn duplicate(&self) -> (r: Field)
        ensures
            r@ == self@,
    {
        Field {
            name: self.name.clone(),
            field_type: self.field_type.clone(),
            start_line: self.start_line,
            end_line: self.end_line,
            modifiers: clone_strings(&self.modifiers),
            metadata: meta_clone(&self.metadata),
        }
    }
}

/// A copy of a list of fields, field by field.
pub fn clone_fields(v: &Vec<Field>) -> (r: Vec<Field>)
    ensures
        field_views(r@) == field_views(v@),
{
    let mut r: Vec<Field> = Vec::new();
    let mut i: usize = 0;
    while i < v.len()
        invariant
            i <= v.len(),
            field_views(r@) == field_views(v@).take(i as int),
        decreases v.len() - i,
    {
        let ghost before = field_views(r@);
        let f = v[i].duplicate();
        r.push(f);
        proof {
            assert(field_views(r@) =~= before.push(f@));
            assert(field_views(v@).take(i as int).push(v@[i as int]@) =~= field_views(v@).take(
                i + 1,
            ));
        }
        i += 1;
    }
    proof {
        assert(field_views(v@).take(v.len() as int) =~= field_views(v@));
    }
    r
}

/// A named code entity found in a source file.
#[derive(Debug)]
pub struct Symbol {
    pub name: String,
    pub kind: SymbolKind,
    pub file_path: String,
    pub line: u32,
    pub start_line: u32,
    pub end_line: u32,
    pub code: String,
    pub parent_classes: Vec<String>,
    pub package: String,
    pub modifiers: Vec<String>,
    pub fields: Vec<Field>,
    pub metadata: Metadata,
    pub subclasses: Vec<String>,
}

/// The mathematical content of a `Symbol`.
pub struct SymbolView {
    pub name: Seq<char>,
    pub kind: SymbolKind,
    pub file_path: Seq<char>,
    pub line: u32,
    pub start_line: u32,
    pub end_line: u32,
    pub code: Seq<char>,
    pub parent_classes: Seq<Seq<char>>,
    pub package: Seq<char>,
    pub modifiers: Seq<Seq<char>>,
    pub fields: Seq<FieldView>,
    pub metadata: Pairs,
    pub subclasses: Seq<Seq<char>>,
}

impl SymbolView {
    /// The content of a freshly made symbol: one line long, with nothing
    /// attached.
    pub open spec fn fresh(
        name: Seq<char>,
        kind: SymbolKind,
        file_path: Seq<char>,
        start_line: u32,
        code: Seq<char>,
    ) -> SymbolView {
        SymbolView {
            name,
            kind,
            file_path,
            line: start_line,
            start_line,
            end_line: start_line,
            code,
            parent_classes: Seq::empty(),
            package: Seq::empty(),
            modifiers: Seq::empty(),
            fields: Seq::empty(),
            metadata: Seq::empty(),
            subclasses: Seq::empty(),
        }
    }

    /// The same symbol ending on `end_line`, which is also its reported line.
    pub open spec fn with_end_line(self, end_line: u32) -> SymbolView {
        SymbolView { end_line, line: end_line, ..self }
    }

    /// The same symbol with the given parents.
    pub open spec fn with_parent_classes(self, parent_classes: Seq<Seq<char>>) -> SymbolView {
        SymbolView { parent_classes, ..self }
    }

    /// The same symbol in the given package.
    pub open spec fn with_package(self, package: Seq<char>) -> SymbolView {
        SymbolView { package, ..self }
    }

    /// The same symbol with the given modifiers.
    pub open spec fn with_modifiers(self, modifiers: Seq<Seq<char>>) -> SymbolView {
        SymbolView { modifiers, ..self }
    }

    /// The same symbol with the given fields.
    pub open spec fn with_fields(self, fields: Seq<FieldView>) -> SymbolView {
        SymbolView { fields, ..self }
    }

    /// The same symbol with the given metadata.
    pub open spec fn with_metadata(self, metadata: Pairs) -> SymbolView {
        SymbolView { metadata, ..self }
    }

    /// The invariant of a symbol: it does not end before it starts.
    pub open spec fn wf(self) -> bool {
        self.start_line <= self.end_line
    }
}

impl View for Symbol {
    type V = SymbolView;

    open spec fn view(&self) -> SymbolView {
        SymbolView {
            name: self.name@,
            kind: self.kind,
            file_path: self.file_path@,
            line: self.line,
            start_line: self.start_line,
            end_line: self.end_line,
            code: self.code@,
            parent_classes: texts(self.parent_classes@),
            package: self.package@,
            modifiers: texts(self.modifiers@),
            fields: field_views(self.fields@),
            metadata: meta_view(&self.metadata),
            subclasses: texts(self.subclasses@),
        }
    }
}

/// Two symbol contents with equal parts are equal.
pub proof fn lemma_symbol_view_eq(a: SymbolView, b: SymbolView)
    requires
        a.name == b.name,
        a.kind == b.kind,
        a.file_path == b.file_path,
        a.line == b.line,
        a.start_line == b.start_line,
        a.end_line == b.end_line,
        a.code == b.code,
        a.parent_classes == b.parent_classes,
        a.package == b.package,
        a.modifiers == b.modifiers,
        a.fields == b.fields,
        a.metadata == b.metadata,
        a.subclasses == b.subclasses,
    ensures
        a == b,
{
}

/// Two field contents with equal parts are equal.
pub proof fn lemma_field_view_eq(a: FieldView, b: FieldView)
    requires
        a.name == b.name,
        a.field_type == b.field_type,
        a.start_line == b.start_line,
        a.end_line == b.end_line,
        a.modifiers == b.modifiers,
        a.metadata == b.metadata,
    ensures
        a == b,
{
}

/// The contents of a list of symbols.
pub open spec fn symbol_views(v: Seq<Symbol>) -> Seq<SymbolView> {
    v.map_values(|s: Symbol| s@)
}

/// The lower-case name of a kind.
pub open spec fn kind_name(kind: SymbolKind) -> Seq<char> {
    match kind {
        SymbolKind::Class => "class"@,
        SymbolKind::Function => "function"@,
        SymbolKind::Method => "method"@,
        SymbolKind::MethodCall => "method_call"@,
        SymbolKind::Interface => "interface"@,
        SymbolKind::Struct => "struct"@,
    }
}

/// The label under which a kind appears in a report.
pub open spec fn kind_label(kind: SymbolKind) -> Seq<char> {
    match kind {
        SymbolKind::Class => "Class"@,
        SymbolKind::Function => "Function"@,
        SymbolKind::Method => "Method"@,
        SymbolKind::MethodCall => "MethodCall"@,
        SymbolKind::Interface => "Interface"@,
        SymbolKind::Struct => "Struct"@,
    }
}

impl Symbol {
    /// The invariant: the symbol does not end before it starts.
    pub open spec fn wf(&self) -> bool {
        self.start_line <= self.end_line
    }

    /// A symbol that is one line long, with nothing attached.
    pub fn new(name: String, kind: SymbolKind, file_path: String, start_line: u32, code: String) -> (s:
        Self)
        ensures
            s@ == SymbolView::fresh(name@, kind, file_path@, start_line, code@),
            s.wf(),
    {
        let s = Symbol {
            name,
            kind,
            file_path,
            line: start_line,
            start_line,
            end_line: start_line,
            code,
            parent_classes: Vec::new(),
            package: String::new(),
            modifiers: Vec::new(),
            fields: Vec::new(),
            metadata: StrMap::new(),
            subclasses: Vec::new(),
        };
        proof {
            assert(s@.parent_classes =~= Seq::empty());
            assert(s@.modifiers =~= Seq::empty());
            assert(s@.fields =~= Seq::empty());
            assert(s@.metadata =~= Seq::empty());
            assert(s@.subclasses =~= Seq::empty());
        }
        s
    }

    /// Sets the last line. The reported `line` follows it.
    pub fn with_end_line(self, end_line: u32) -> (s: Self)
        requires
            self.start_line <= end_line,
        ensures
            s@ == self@.with_end_line(end_line),
            s.wf(),
    {
        let mut s = self;
        s.end_line = end_line;
        s.line = end_line;
        s
    }

    /// The same symbol with the given parents.
    pub fn with_parent_classes(self, parent_classes: Vec<String>) -> (s: Self)
        ensures
            s@ == self@.with_parent_classes(texts(parent_classes@)),
            s.wf() == self.wf(),
    {
        let mut s = self;
        s.parent_classes = parent_classes;
        s
    }

    /// The same symbol in the given package.
    pub fn with_package(self, package: String) -> (s: Self)
        ensures
            s@ == self@.with_package(package@),
            s.wf() == self.wf(),
    {
        let mut s = self;
        s.package = package;
        s
    }

    /// The same symbol with the given modifiers.
    pub fn with_modifiers(self, modifiers: Vec<String>) -> (s: Self)
        ensures
            s@ == self@.with_modifiers(texts(modifiers@)),
            s.wf() == self.wf(),
    {
        let mut s = self;
        s.modifiers = modifiers;
        s
    }

    /// The same symbol with the given fields.
    pub fn with_fields(self, fields: Vec<Field>) -> (s: Self)
        ensures
            s@ == self@.with_fields(field_views(fields@)),
            s.wf() == self.wf(),
    {
        let mut s = self;
        s.fields = fields;
        s
    }

    /// The same symbol with the given metadata.
    pub fn with_metadata(self, metadata: Metadata) -> (s: Self)
        ensures
            s@ == self@.with_metadata(meta_view(&metadata)),
            s.wf() == self.wf(),
    {
        let mut s = self;
        s.metadata = metadata;
        s
    }

    /// A copy with the same content.
    pub fn duplicate(&self) -> (s: Symbol)
        ensures
            s@ == self@,
            s.wf() == self.wf(),
    {
        let s = Symbol {
            name: self.name.clone(),
            kind: self.kind,
            file_path: self.file_path.clone(),
            line: self.line,
            start_line: self.start_line,
            end_line: self.end_line,
            code: self.code.clone(),
            parent_classes: clone_strings(&self.parent_classes),
            package: self.package.clone(),
            modifiers: clone_strings(&self.modifiers),
            fields: clone_fields(&self.fields),
            metadata: meta_clone(&self.metadata),
            subclasses: clone_strings(&self.subclasses),
        };
        proof {
            lemma_symbol_view_eq(s@, self@);
        }
        s
    }

    /// The lower-case name of the symbol's kind.
    pub fn kind_to_string(&self) -> (r: String)
        ensures
            r@ == kind_name(self.kind),
    {
        match self.kind {
            SymbolKind::Class => "class".to_string(),
            SymbolKind::Function => "function".to_string(),
            SymbolKind::Method => "method".to_string(),
            SymbolKind::MethodCall => "method_call".to_string(),
            SymbolKind::Interface => "interface".to_string(),
            SymbolKind::Struct => "struct".to_string(),
        }
    }
}

} // verus!
