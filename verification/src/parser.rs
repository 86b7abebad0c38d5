//! The language extractor: from a file's path and text to its symbols.

use crate::extract::{
    extract_generic_symbols, extract_java_symbols, extract_javascript_symbols,
    extract_python_symbols, extract_rust_symbols, extract_typescript_symbols, extracted, Grammar,
};
use crate::strmap::StrMap;
use crate::symbol::{symbol_views, Symbol};
use crate::syntax::SyntaxNode;
use crate::text::{extension, extension_of};
use crate::strmap::lemma_position_unique;
use crate::symbol::SymbolView;
use crate::treesitter::{
    are_hits_in, compile_query, grammar_loads, is_tree_of, language_loads, parse_source,
    query_matches, NamedGrammar, QueryHit,
};
use vstd::prelude::*;

verus! {

/// Why a file gave no symbols.
#[derive(Debug)]
pub enum ParseError {
    /// No grammar is registered for the file's extension, which is given.
    UnsupportedLanguage(String),
    /// The grammar gave no syntax tree for the text.
    ParseFailure,
    /// The grammar refused the query for the package declaration.
    QueryFailure,
}

/// The words for an error.
pub open spec fn error_text(e: ParseError) -> Seq<char> {
    match e {
        ParseError::UnsupportedLanguage(ext) => "Unsupported file extension: ."@ + ext@,
        ParseError::ParseFailure => "Failed to parse file"@,
        ParseError::QueryFailure => "Query error"@,
    }
}

impl ParseError {
    /// The error in words.
    pub fn message(&self) -> (r: String)
        ensures
            r@ == error_text(*self),
    {
        match self {
            ParseError::UnsupportedLanguage(ext) => crate::text::concat2(
                "Unsupported file extension: .",
                ext.as_str(),
            ),
            ParseError::ParseFailure => "Failed to parse file".to_string(),
            ParseError::QueryFailure => "Query error".to_string(),
        }
    }
}

/// Whether files with this extension are indexed.
pub open spec fn is_known_extension(ext: Seq<char>) -> bool {
    ||| ext == "js"@
    ||| ext == "jsx"@
    ||| ext == "py"@
    ||| ext == "java"@
    ||| ext == "rs"@
    ||| ext == "go"@
    ||| ext == "ts"@
    ||| ext == "tsx"@
    ||| ext == "html"@
    ||| ext == "htm"@
    ||| ext == "vue"@
    ||| ext == "css"@
    ||| ext == "json"@
    ||| ext == "c"@
    ||| ext == "h"@
    ||| ext == "cpp"@
    ||| ext == "hpp"@
    ||| ext == "cc"@
}

/// The extraction rules that apply to files with this extension.
pub open spec fn grammar_for(ext: Seq<char>) -> Grammar {
    if ext == "java"@ {
        Grammar::Java
    } else if ext == "py"@ {
        Grammar::Python
    } else if ext == "rs"@ {
        Grammar::Rust
    } else if ext == "ts"@ || ext == "tsx"@ || ext == "js"@ || ext == "jsx"@ {
        Grammar::JavaScript
    } else {
        Grammar::Other
    }
}

/// The name of the grammar for files with this extension.
pub open spec fn grammar_name_of(ext: Seq<char>) -> Seq<char> {
    if ext == "js"@ || ext == "jsx"@ {
        "javascript"@
    } else if ext == "py"@ {
        "python"@
    } else if ext == "java"@ {
        "java"@
    } else if ext == "rs"@ {
        "rust"@
    } else if ext == "go"@ {
        "go"@
    } else if ext == "ts"@ {
        "typescript"@
    } else if ext == "tsx"@ {
        "tsx"@
    } else if ext == "html"@ || ext == "htm"@ || ext == "vue"@ {
        "html"@
    } else if ext == "css"@ {
        "css"@
    } else if ext == "json"@ {
        "json"@
    } else if ext == "c"@ || ext == "h"@ {
        "c"@
    } else {
        "cpp"@
    }
}

/// The grammar for files with this extension; none for an extension that
/// is not indexed.
pub fn grammar_by_extension(ext: &str) -> (r: Option<NamedGrammar>)
    ensures
        r is Some <==> is_known_extension(ext@),
        r is Some ==> r->0@ == grammar_name_of(ext@),
{
    if ext.eq("js") || ext.eq("jsx") {
        Some(NamedGrammar::javascript())
    } else if ext.eq("py") {
        Some(NamedGrammar::python())
    } else if ext.eq("java") {
        Some(NamedGrammar::java())
    } else if ext.eq("rs") {
        Some(NamedGrammar::rust())
    } else if ext.eq("go") {
        Some(NamedGrammar::go())
    } else if ext.eq("ts") {
        Some(NamedGrammar::typescript())
    } else if ext.eq("tsx") {
        Some(NamedGrammar::tsx())
    } else if ext.eq("html") || ext.eq("htm") || ext.eq("vue") {
        Some(NamedGrammar::html())
    } else if ext.eq("css") {
        Some(NamedGrammar::css())
    } else if ext.eq("json") {
        Some(NamedGrammar::json())
    } else if ext.eq("c") || ext.eq("h") {
        Some(NamedGrammar::c())
    } else if ext.eq("cpp") || ext.eq("hpp") || ext.eq("cc") {
        Some(NamedGrammar::cpp())
    } else {
        None
    }
}

/// Whether an extension is one of those that are indexed.
pub fn known_extension(ext: &str) -> (r: bool)
    ensures
        r == is_known_extension(ext@),
{
    ext.eq("js") || ext.eq("jsx") || ext.eq("py") || ext.eq("java") || ext.eq("rs") || ext.eq("go")
        || ext.eq("ts") || ext.eq("tsx") || ext.eq("html") || ext.eq("htm") || ext.eq("vue")
        || ext.eq("css") || ext.eq("json") || ext.eq("c") || ext.eq("h") || ext.eq("cpp") || ext.eq(
        "hpp",
    ) || ext.eq("cc")
}

/// Whether the file at `path` is one that is indexed, judged by its
/// extension.
pub fn is_supported_file(path: &str) -> (r: bool)
    ensures
        r == is_known_extension(extension_of(path@)),
{
    let ext = extension(path);
    known_extension(ext.as_str())
}

/// The extraction rules that apply to files with this extension.
pub fn grammar_of_extension(ext: &str) -> (g: Grammar)
    ensures
        g == grammar_for(ext@),
{
    if ext.eq("java") {
        Grammar::Java
    } else if ext.eq("py") {
        Grammar::Python
    } else if ext.eq("rs") {
        Grammar::Rust
    } else if ext.eq("ts") || ext.eq("tsx") || ext.eq("js") || ext.eq("jsx") {
        Grammar::JavaScript
    } else {
        Grammar::Other
    }
}

/// The text of the first capture with the given index among `hits`, empty
/// where that capture has no text.
pub open spec fn first_capture(hits: Seq<QueryHit>, index: u32) -> Option<Seq<char>>
    decreases hits.len(),
{
    if hits.len() == 0 {
        None
    } else if hits[0].index == index {
        Some(
            match hits[0].text {
                Some(t) => t@,
                None => Seq::empty(),
            },
        )
    } else {
        first_capture(hits.drop_first(), index)
    }
}

/// The package that the matches of the package query declare: the text
/// captured by the last match that captures one; empty where none does.
pub open spec fn package_of(matches: Seq<Vec<QueryHit>>) -> Seq<char>
    decreases matches.len(),
{
    if matches.len() == 0 {
        Seq::empty()
    } else {
        match first_capture(matches.last()@, 0) {
            Some(t) => t,
            None => package_of(matches.drop_last()),
        }
    }
}

/// The text of the first capture with the given index among `hits`.
pub fn first_capture_text(hits: &Vec<QueryHit>, index: u32) -> (r: Option<String>)
    ensures
        match r {
            Some(t) => first_capture(hits@, index) == Some(t@),
            None => first_capture(hits@, index) is None,
        },
{
    let mut i: usize = 0;
    proof {
        assert(hits@.skip(0) =~= hits@);
    }
    while i < hits.len()
        invariant
            i <= hits.len(),
            first_capture(hits@, index) == first_capture(hits@.skip(i as int), index),
        decreases hits.len() - i,
    {
        proof {
            assert(hits@.skip(i as int)[0] == hits@[i as int]);
            assert(hits@.skip(i as int).drop_first() =~= hits@.skip(i + 1));
        }
        if hits[i].index == index {
            return Some(
                match &hits[i].text {
                    Some(t) => t.clone(),
                    None => String::new(),
                },
            );
        }
        i += 1;
    }
    None
}

/// The package that the matches of the package query declare.
pub fn package_from_matches(matches: &Vec<Vec<QueryHit>>) -> (r: String)
    ensures
        r@ == package_of(matches@),
{
    let mut package = String::new();
    let mut i: usize = 0;
    proof {
        assert(matches@.take(0) =~= Seq::empty());
    }
    while i < matches.len()
        invariant
            i <= matches.len(),
            package@ == package_of(matches@.take(i as int)),
        decreases matches.len() - i,
    {
        proof {
            assert(matches@.take(i + 1).drop_last() =~= matches@.take(i as int));
            assert(matches@.take(i + 1).last() == matches@[i as int]);
        }
        match first_capture_text(&matches[i], 0) {
            Some(t) => {
                package = t;
            },
            None => {},
        }
        i += 1;
    }
    proof {
        assert(matches@.take(matches.len() as int) =~= matches@);
    }
    package
}

/// Whether `views` are symbols of a file at `path` with the text
/// `content`: those that the rules of the file's language extract from
/// some tree over the text; for a Java file with the package that some
/// matches in the text give.
pub open spec fn are_symbols(path: Seq<char>, content: Seq<char>, views: Seq<SymbolView>) -> bool {
    let ext = extension_of(path);
    if grammar_for(ext) == Grammar::Java {
        exists|root: SyntaxNode, hits: Seq<Vec<QueryHit>>|
            #![trigger is_tree_of(root, content), are_hits_in(hits, content)]
            is_tree_of(root, content) && are_hits_in(hits, content) && views == extracted(
                Grammar::Java,
                root,
                path,
                package_of(hits),
            )
    } else {
        exists|root: SyntaxNode|
            #![trigger is_tree_of(root, content)]
            is_tree_of(root, content) && views == extracted(
                grammar_for(ext),
                root,
                path,
                Seq::empty(),
            )
    }
}

/// Whether each map entry holds the grammar for its extension.
pub open spec fn names_right(languages: StrMap<NamedGrammar>) -> bool {
    forall|e: Seq<char>| #[trigger]
        languages.has(e) ==> languages.value_of(e)@ == grammar_name_of(e)
}

/// The parsers of the supported languages, by file extension.
pub struct ASTParser {
    languages: StrMap<NamedGrammar>,
}

impl ASTParser {
    /// Validity: each extension has its own grammar.
    #[verifier::type_invariant]
    pub closed spec fn wf(&self) -> bool {
        names_right(self.languages)
    }

    /// Whether a grammar is registered for the extension.
    pub closed spec fn supports(&self, ext: Seq<char>) -> bool {
        self.languages.has(ext)
    }

    /// The name of the grammar that texts of files with the extension are
    /// handed to, for an extension with a registered grammar.
    pub closed spec fn grammar_name(&self, ext: Seq<char>) -> Seq<char> {
        self.languages.value_of(ext)@
    }

    /// Registers the grammar for `ext` if the extension is one that is
    /// indexed and a parser takes its grammar; else the set stays as it
    /// is.
    fn register(languages: &mut StrMap<NamedGrammar>, ext: &str)
        requires
            names_right(*old(languages)),
        ensures
            names_right(*final(languages)),
            forall|e: Seq<char>| #[trigger]
                final(languages).has(e) <==> old(languages).has(e) || (e == ext@
                    && is_known_extension(ext@) && grammar_loads(grammar_name_of(ext@))),
    {
        match grammar_by_extension(ext) {
            Some(grammar) => {
                let loads = language_loads(&grammar);
                Self::register_if(languages, ext, grammar, loads);
            },
            None => {},
        }
    }

    /// Registers `grammar` for `ext` where `loads` holds; else the set
    /// stays as it is.
    fn register_if(languages: &mut StrMap<NamedGrammar>, ext: &str, grammar: NamedGrammar, loads: bool)
        requires
            names_right(*old(languages)),
            grammar@ == grammar_name_of(ext@),
        ensures
            names_right(*final(languages)),
            forall|e: Seq<char>| #[trigger]
                final(languages).has(e) <==> old(languages).has(e) || (loads && e == ext@),
    {
        if loads {
            let ghost before = languages.keys();
            let ghost old_values = languages.values();
            proof {
                languages.lemma_same_len();
            }
            languages.insert(ext.to_string(), grammar);
            proof {
                let after = languages.keys();
                languages.lemma_same_len();
                use_type_invariant(&*languages);
                languages.lemma_distinct();
                assert forall|e: Seq<char>| after.contains(e) <==> before.contains(e) || e
                    == ext@ by {
                    if after.contains(e) {
                        let i = after.index_of(e);
                        if i < before.len() {
                            assert(before[i] == e);
                        }
                    }
                    if before.contains(e) {
                        let i = before.index_of(e);
                        assert(after[i] == e);
                    }
                    if e == ext@ {
                        if before.contains(e) {
                        } else {
                            assert(after[before.len() as int] == e);
                        }
                    }
                }
                assert forall|e: Seq<char>| #[trigger] languages.has(e) implies languages.value_of(
                    e,
                )@ == grammar_name_of(e) by {
                    let i = after.index_of(e);
                    assert(0 <= i < after.len() && after[i] == e);
                    if e == ext@ {
                        if before.contains(ext@) {
                            let k = before.index_of(ext@);
                            assert(after[k] == ext@);
                            lemma_position_unique(after, ext@, k);
                        } else {
                            lemma_position_unique(after, ext@, before.len() as int);
                        }
                    } else {
                        assert(i < before.len() && before[i] == e);
                        assert(old(languages).has(e));
                        let k = before.index_of(e);
                        assert(after[k] == e);
                        lemma_position_unique(after, e, k);
                        assert(languages.values()[k] == old_values[k]);
                    }
                }
            }
        }
    }

    /// A parser set with the grammar of every extension that is indexed
    /// and whose grammar a parser takes, each extension with its own
    /// grammar.
    pub fn new() -> (p: Self)
        ensures
            forall|e: Seq<char>| #[trigger]
                p.supports(e) <==> is_known_extension(e) && grammar_loads(grammar_name_of(e)),
            forall|e: Seq<char>| #[trigger] p.supports(e) ==> p.grammar_name(e) == grammar_name_of(e),
    {
        let mut languages: StrMap<NamedGrammar> = StrMap::new();
        Self::register(&mut languages, "js");
        Self::register(&mut languages, "jsx");
        Self::register(&mut languages, "py");
        Self::register(&mut languages, "java");
        Self::register(&mut languages, "rs");
        Self::register(&mut languages, "go");
        Self::register(&mut languages, "ts");
        Self::register(&mut languages, "tsx");
        Self::register(&mut languages, "html");
        Self::register(&mut languages, "htm");
        Self::register(&mut languages, "vue");
        Self::register(&mut languages, "css");
        Self::register(&mut languages, "json");
        Self::register(&mut languages, "c");
        Self::register(&mut languages, "h");
        Self::register(&mut languages, "cpp");
        Self::register(&mut languages, "hpp");
        Self::register(&mut languages, "cc");
        ASTParser { languages }
    }

    /// Whether a grammar is registered for the extension.
    pub fn supports_extension(&self, ext: &str) -> (r: bool)
        ensures
            r == self.supports(ext@),
    {
        self.languages.contains_key(ext)
    }

    /// The symbols of the file at `path` with the text `content`.
    ///
    /// Fails with `UnsupportedLanguage` exactly where no grammar is
    /// registered for the file's extension. Otherwise the grammar decides:
    /// where it gives no tree the call fails with `ParseFailure`, where it
    /// refuses the package query of a Java file with `QueryFailure`, and
    /// else the symbols are those that the rules of the file's language
    /// extract from the tree that it gave.
    pub fn parse_file(&self, file_path: &str, content: &str) -> (r: Result<Vec<Symbol>, ParseError>)
        ensures
            (r is Err && r->Err_0 is UnsupportedLanguage) <==> !self.supports(
                extension_of(file_path@),
            ),
            match r {
                Ok(symbols) => {
                    &&& are_symbols(file_path@, content@, symbol_views(symbols@))
                    &&& forall|i: int| 0 <= i < symbols@.len() ==> (#[trigger] symbols@[i]).wf()
                },
                Err(ParseError::UnsupportedLanguage(e)) => e@ == extension_of(file_path@),
                Err(ParseError::ParseFailure) => true,
                Err(ParseError::QueryFailure) => grammar_for(extension_of(file_path@))
                    == Grammar::Java,
            },
    {
        proof {
            use_type_invariant(self);
        }
        let ext = extension(file_path);
        match self.languages.get(ext.as_str()) {
            None => Err(ParseError::UnsupportedLanguage(ext)),
            Some(lang) => match parse_source(lang, content) {
                None => Err(ParseError::ParseFailure),
                Some(root) => {
                    let grammar = grammar_of_extension(ext.as_str());
                    let ghost mut hits: Seq<Vec<QueryHit>> = Seq::empty();
                    let package = match grammar {
                        Grammar::Java => match compile_query(
                            lang,
                            "(package_declaration (scoped_identifier) @name)",
                        ) {
                            Some(query) => {
                                let found = query_matches(&query, content);
                                proof {
                                    hits = found@;
                                }
                                package_from_matches(&found)
                            },
                            None => {
                                return Err(ParseError::QueryFailure);
                            },
                        },
                        _ => String::new(),
                    };
                    let symbols = match grammar {
                        Grammar::Java => extract_java_symbols(file_path, package.as_str(), &root),
                        Grammar::Python => extract_python_symbols(file_path, &root),
                        Grammar::Rust => extract_rust_symbols(file_path, &root),
                        Grammar::JavaScript => if ext.as_str().eq("ts") || ext.as_str().eq("tsx") {
                            extract_typescript_symbols(file_path, &root)
                        } else {
                            extract_javascript_symbols(file_path, &root)
                        },
                        Grammar::Other => extract_generic_symbols(file_path, &root),
                    };
                    proof {
                        assert(is_tree_of(root, content@));
                        if grammar == Grammar::Java {
                            assert(are_hits_in(hits, content@));
                            assert(symbol_views(symbols@) == extracted(
                                Grammar::Java,
                                root,
                                file_path@,
                                package_of(hits),
                            ));
                        } else {
                            assert(symbol_views(symbols@) == extracted(
                                grammar_for(extension_of(file_path@)),
                                root,
                                file_path@,
                                Seq::empty(),
                            ));
                        }
                    }
                    Ok(symbols)
                },
            },
        }
    }
}

} // verus!
