//! The report view of the index: one canonical node per symbol, keyed by a
//! stable id, with the metadata of the build.

use crate::query::{derefs, QueryEngine};
use crate::strmap::{position_of, StrMap};
use crate::symbol::{
    clone_fields, field_views, kind_label, kind_name, meta_insert, meta_view, new_metadata,
    pairs_insert, pairs_merge, symbol_views, Field, FieldView, Metadata, Pairs, Symbol, SymbolKind,
    SymbolView,
};
use crate::text::{
    append_chars, append_decimal, clone_strings, decimal, extension, extension_of, from_chars,
    join_strings, joined, lowercase, texts, to_lowercase,
};
use vstd::prelude::*;

verus! {

/// The canonical report node of a symbol.
#[derive(Debug)]
pub struct ReportNode {
    pub id: String,
    pub language: String,
    pub node_type: String,
    pub name: String,
    pub file: String,
    pub package: String,
    pub start_line: u32,
    pub end_line: u32,
    pub code: String,
    pub modifiers: Vec<String>,
    pub fields: Vec<Field>,
    pub full_class_name: String,
    pub metadata: Metadata,
    pub kind: String,
    pub line: u32,
    pub parent_classes: Vec<String>,
    pub subclasses: Vec<String>,
}

/// The mathematical content of a `ReportNode`.
pub struct ReportNodeView {
    pub id: Seq<char>,
    pub language: Seq<char>,
    pub node_type: Seq<char>,
    pub name: Seq<char>,
    pub file: Seq<char>,
    pub package: Seq<char>,
    pub start_line: u32,
    pub end_line: u32,
    pub code: Seq<char>,
    pub modifiers: Seq<Seq<char>>,
    pub fields: Seq<FieldView>,
    pub full_class_name: Seq<char>,
    pub metadata: Pairs,
    pub kind: Seq<char>,
    pub line: u32,
    pub parent_classes: Seq<Seq<char>>,
    pub subclasses: Seq<Seq<char>>,
}

impl View for ReportNode {
    type V = ReportNodeView;

    open spec fn view(&self) -> ReportNodeView {
        ReportNodeView {
            id: self.id@,
            language: self.language@,
            node_type: self.node_type@,
            name: self.name@,
            file: self.file@,
            package: self.package@,
            start_line: self.start_line,
            end_line: self.end_line,
            code: self.code@,
            modifiers: texts(self.modifiers@),
            fields: field_views(self.fields@),
            full_class_name: self.full_class_name@,
            metadata: meta_view(&self.metadata),
            kind: self.kind@,
            line: self.line,
            parent_classes: texts(self.parent_classes@),
            subclasses: texts(self.subclasses@),
        }
    }
}

/// The language tag of a file: read off the lower-case form of its
/// extension, which stands for itself where it is not one of the known
/// ones.
pub open spec fn language_tag(path: Seq<char>) -> Seq<char> {
    let ext = lowercase(extension_of(path));
    if ext == "rs"@ {
        "rust"@
    } else if ext == "py"@ {
        "python"@
    } else if ext == "js"@ {
        "javascript"@
    } else if ext == "ts"@ || ext == "tsx"@ {
        "typescript"@
    } else {
        ext
    }
}

/// The stable id of a symbol: file, name and first line, joined by colons.
pub open spec fn node_id(s: SymbolView) -> Seq<char> {
    s.file_path + ":"@ + s.name + ":"@ + decimal(s.start_line as nat)
}

/// The name of a symbol qualified by its package, where it has one.
pub open spec fn full_name(s: SymbolView) -> Seq<char> {
    if s.package.len() == 0 {
        s.name
    } else {
        s.package + "."@ + s.name
    }
}

/// The metadata of a report node: for a class or an interface the parents
/// joined by `, ` under `superClasses`, then the symbol's own metadata.
pub open spec fn report_metadata(s: SymbolView) -> Pairs {
    pairs_merge(
        if s.kind == SymbolKind::Class || s.kind == SymbolKind::Interface {
            pairs_insert(Seq::empty(), "superClasses"@, joined(s.parent_classes, ", "@))
        } else {
            Seq::empty()
        },
        s.metadata,
    )
}

/// The report node of a symbol.
pub open spec fn report_node_of(s: SymbolView) -> ReportNodeView {
    ReportNodeView {
        id: node_id(s),
        language: language_tag(s.file_path),
        node_type: kind_label(s.kind),
        name: s.name,
        file: s.file_path,
        package: s.package,
        start_line: s.start_line,
        end_line: s.end_line,
        code: s.code,
        modifiers: s.modifiers,
        fields: s.fields,
        full_class_name: full_name(s),
        metadata: report_metadata(s),
        kind: kind_name(s.kind),
        line: s.start_line,
        parent_classes: s.parent_classes,
        subclasses: s.subclasses,
    }
}

/// Two report nodes with equal parts are equal.
pub proof fn lemma_report_node_eq(a: ReportNodeView, b: ReportNodeView)
    requires
        a.id == b.id,
        a.language == b.language,
        a.node_type == b.node_type,
        a.name == b.name,
        a.file == b.file,
        a.package == b.package,
        a.start_line == b.start_line,
        a.end_line == b.end_line,
        a.code == b.code,
        a.modifiers == b.modifiers,
        a.fields == b.fields,
        a.full_class_name == b.full_class_name,
        a.metadata == b.metadata,
        a.kind == b.kind,
        a.line == b.line,
        a.parent_classes == b.parent_classes,
        a.subclasses == b.subclasses,
    ensures
        a == b,
{
}

/// The language tag of a file.
pub fn language_of(path: &str) -> (r: String)
    ensures
        r@ == language_tag(path@),
{
    let ext = to_lowercase(extension(path).as_str());
    if ext.as_str().eq("rs") {
        "rust".to_string()
    } else if ext.as_str().eq("py") {
        "python".to_string()
    } else if ext.as_str().eq("js") {
        "javascript".to_string()
    } else if ext.as_str().eq("ts") || ext.as_str().eq("tsx") {
        "typescript".to_string()
    } else {
        ext
    }
}

/// `base` with every entry of `extra` stored, in order.
pub fn merge_metadata(base: Metadata, extra: &Metadata) -> (r: Metadata)
    ensures
        meta_view(&r) == pairs_merge(meta_view(&base), meta_view(extra)),
{
    let mut r = base;
    let mut i: usize = 0;
    proof {
        extra.lemma_same_len();
        assert(meta_view(extra).take(0) =~= Seq::empty());
    }
    while i < extra.len()
        invariant
            i <= extra.keys().len(),
            extra.keys().len() == extra.values().len(),
            meta_view(&r) == pairs_merge(meta_view(&base), meta_view(extra).take(i as int)),
        decreases extra.keys().len() - i,
    {
        let k = extra.key_at(i).clone();
        let v = extra.value_at(i).clone();
        proof {
            let all = meta_view(extra);
            assert(all.take(i + 1).drop_last() =~= all.take(i as int));
            assert(all.take(i + 1).last() == (k@, v@));
        }
        meta_insert(&mut r, k, v);
        i += 1;
    }
    proof {
        assert(meta_view(extra).take(extra.keys().len() as int) =~= meta_view(extra));
    }
    r
}

impl Symbol {
    /// The stable id of the symbol.
    pub fn node_id(&self) -> (r: String)
        ensures
            r@ == node_id(self@),
    {
        let mut out: Vec<char> = Vec::new();
        append_chars(&mut out, self.file_path.as_str());
        append_chars(&mut out, ":");
        append_chars(&mut out, self.name.as_str());
        append_chars(&mut out, ":");
        append_decimal(&mut out, self.start_line as u64);
        proof {
            assert(out@ =~= node_id(self@));
        }
        from_chars(&out)
    }

    /// The canonical report node of the symbol.
    pub fn to_dict(&self) -> (r: ReportNode)
        ensures
            r@ == report_node_of(self@),
    {
        let mut meta = new_metadata();
        let typed = match self.kind {
            SymbolKind::Class => true,
            SymbolKind::Interface => true,
            _ => false,
        };
        if typed {
            meta_insert(
                &mut meta,
                "superClasses".to_string(),
                join_strings(&self.parent_classes, ", "),
            );
        }
        let meta = merge_metadata(meta, &self.metadata);
        let full = if self.package.as_str().is_empty() {
            self.name.clone()
        } else {
            let mut out: Vec<char> = Vec::new();
            append_chars(&mut out, self.package.as_str());
            append_chars(&mut out, ".");
            append_chars(&mut out, self.name.as_str());
            proof {
                assert(out@ =~= self.package@ + "."@ + self.name@);
            }
            from_chars(&out)
        };
        let node_type = match self.kind {
            SymbolKind::MethodCall => "MethodCall".to_string(),
            SymbolKind::Method => "Method".to_string(),
            SymbolKind::Function => "Function".to_string(),
            SymbolKind::Class => "Class".to_string(),
            SymbolKind::Interface => "Interface".to_string(),
            SymbolKind::Struct => "Struct".to_string(),
        };
        let r = ReportNode {
            id: self.node_id(),
            language: language_of(self.file_path.as_str()),
            node_type,
            name: self.name.clone(),
            file: self.file_path.clone(),
            package: self.package.clone(),
            start_line: self.start_line,
            end_line: self.end_line,
            code: self.code.clone(),
            modifiers: clone_strings(&self.modifiers),
            fields: clone_fields(&self.fields),
            full_class_name: full,
            metadata: meta,
            kind: self.kind_to_string(),
            line: self.start_line,
            parent_classes: clone_strings(&self.parent_classes),
            subclasses: clone_strings(&self.subclasses),
        };
        proof {
            lemma_report_node_eq(r@, report_node_of(self@));
        }
        r
    }
}

/// The version tag of the report layout.
pub open spec fn cache_version() -> Seq<char> {
    "1.0"@
}

/// What a report says of its build.
#[derive(Debug)]
pub struct ReportMetadata {
    pub build_time: String,
    pub cache_version: String,
    pub node_count: usize,
    pub repository_path: String,
}

/// The analysis report: every symbol's report node under its stable id.
#[derive(Debug)]
pub struct Report {
    pub metadata: ReportMetadata,
    pub nodes: StrMap<ReportNode>,
}

/// A list of report nodes, each under its id.
pub type NodeEntries = Seq<(Seq<char>, ReportNodeView)>;

/// The entries of a node map, in order.
pub open spec fn node_entries(m: &StrMap<ReportNode>) -> NodeEntries {
    Seq::new(m.keys().len(), |i: int| (m.keys()[i], m.values()[i]@))
}

/// The ids of a list of node entries.
pub open spec fn entry_ids(entries: NodeEntries) -> Seq<Seq<char>> {
    entries.map_values(|e: (Seq<char>, ReportNodeView)| e.0)
}

/// The node entries of a list of symbols: each symbol stores its node under
/// its id, in order, so that of two symbols with one id the later one
/// decides the node and the earlier one the place.
pub open spec fn report_entries(symbols: Seq<SymbolView>) -> NodeEntries
    decreases symbols.len(),
{
    if symbols.len() == 0 {
        Seq::empty()
    } else {
        let head = report_entries(symbols.drop_last());
        let node = report_node_of(symbols.last());
        match position_of(entry_ids(head), node.id) {
            Some(i) => head.update(i, (node.id, node)),
            None => head.push((node.id, node)),
        }
    }
}

/// What `Utc::now().to_rfc3339()` of chrono returns: the time of the call
/// as text. Nothing is claimed of it.
#[verifier::external_body]
pub(crate) fn now_rfc3339() -> (now: String) {
    chrono::Utc::now().to_rfc3339()
}

impl QueryEngine {
    /// The report on the index for the repository at `repository_path`,
    /// stamped with `build_time`.
    pub fn generate_report_at(&self, repository_path: &str, build_time: String) -> (r: Report)
        ensures
            node_entries(&r.nodes) == report_entries(symbol_views(self.cache.symbols())),
            r.metadata.node_count == r.nodes.keys().len(),
            r.metadata.build_time == build_time,
            r.metadata.cache_version@ == cache_version(),
            r.metadata.repository_path@ == repository_path@,
    {
        let all = self.cache.symbol_refs();
        let mut nodes: StrMap<ReportNode> = StrMap::new();
        let mut i: usize = 0;
        let ghost views = symbol_views(self.cache.symbols());
        proof {
            assert(views.take(0) =~= Seq::empty());
            assert(node_entries(&nodes) =~= Seq::empty());
        }
        while i < all.len()
            invariant
                i <= all.len(),
                derefs(all@) == self.cache.symbols(),
                views == symbol_views(self.cache.symbols()),
                node_entries(&nodes) == report_entries(views.take(i as int)),
            decreases all.len() - i,
        {
            let node = all[i].to_dict();
            let ghost before = node_entries(&nodes);
            proof {
                nodes.lemma_same_len();
                assert(views.take(i + 1).drop_last() =~= views.take(i as int));
                assert(views.take(i + 1).last() == all@[i as int]@);
                assert(entry_ids(before) =~= nodes.keys());
            }
            nodes.insert(node.id.clone(), node);
            proof {
                nodes.lemma_same_len();
                let n = report_node_of(all@[i as int]@);
                assert(node_entries(&nodes) =~= match position_of(entry_ids(before), n.id) {
                    Some(k) => before.update(k, (n.id, n)),
                    None => before.push((n.id, n)),
                });
            }
            i += 1;
        }
        proof {
            assert(views.take(all.len() as int) =~= views);
        }
        Report {
            metadata: ReportMetadata {
                build_time,
                cache_version: "1.0".to_string(),
                node_count: nodes.len(),
                repository_path: repository_path.to_string(),
            },
            nodes,
        }
    }

    /// The report on the index for the repository at `repository_path`,
    /// stamped with the time of the call.
    pub fn generate_report(&self, repository_path: &str) -> (r: Report)
        ensures
            node_entries(&r.nodes) == report_entries(symbol_views(self.cache.symbols())),
            r.metadata.node_count == r.nodes.keys().len(),
            r.metadata.cache_version@ == cache_version(),
            r.metadata.repository_path@ == repository_path@,
    {
        self.generate_report_at(repository_path, now_rfc3339())
    }
}

} // verus!
