//! Writing an index to bytes and reading it back.

use crate::cache::{CacheData, FileIndex};
use crate::codec::{
    lemma_parse_items_fails, parse_field, parse_fields, parse_file, parse_items, parse_kind,
    parse_meta, parse_pair, parse_pairs, parse_symbol, parse_symbol_head, parse_symbol_tail,
    parse_symbols, parse_text, parse_texts, parse_u32, parse_u64, utf8_to_string, join_symbol,
    SymbolHead, SymbolTail, cache_valid, decoded, encoded, field_valid, fields_valid, file_paths,
    file_valid, lemma_cache_roundtrip, meta_valid, pair_fits, ser_fields, ser_field, ser_file,
    ser_items, ser_kind, ser_list, ser_meta, ser_pair, ser_pairs, ser_symbol, ser_symbol_head,
    ser_symbol_tail, ser_symbols, ser_text, ser_texts, ser_u32, ser_u64, symbol_valid,
    symbols_valid, text_fits, texts_fit, CacheView, FileView,
};
use crate::strmap::StrMap;
use crate::symbol::{
    field_views, meta_view, pair_keys, symbol_views, Field, FieldView, Metadata, Pairs, Symbol,
    SymbolKind, SymbolView,
};
use crate::text::texts;
use vstd::bytes::{u64_from_le_bytes, u64_to_le_bytes};
use vstd::slice::slice_subrange;
use vstd::prelude::*;

verus! {

/// What the index holds of the file stored under `path`.
pub open spec fn file_view(path: Seq<char>, entry: FileIndex) -> FileView {
    FileView { path, mtime: entry.mtime, symbols: symbol_views(entry.symbols@) }
}

/// What an index holds.
pub open spec fn cache_view(c: CacheData) -> CacheView {
    CacheView {
        files: Seq::new(
            c.index.keys().len(),
            |i: int| file_view(c.index.keys()[i], c.index.values()[i]),
        ),
        class_map: meta_view(&c.class_map),
        build_time: c.build_time@,
    }
}

/// Appends the bytes of a number.
fn write_u64(out: &mut Vec<u8>, x: u64)
    ensures
        final(out)@ == old(out)@ + ser_u64(x),
{
    let mut b = u64_to_le_bytes(x);
    out.append(&mut b);
}

/// Appends the bytes of a text.
fn write_text(out: &mut Vec<u8>, s: &str)
    ensures
        final(out)@ == old(out)@ + ser_text(s@),
        text_fits(s@),
{
    let b = s.as_bytes();
    write_u64(out, b.len() as u64);
    out.extend_from_slice(b);
    proof {
        assert(out@ =~= old(out)@ + ser_text(s@));
    }
}

/// Appends the bytes of a list of texts.
fn write_texts(out: &mut Vec<u8>, v: &Vec<String>)
    ensures
        final(out)@ == old(out)@ + ser_texts(texts(v@)),
        texts_fit(texts(v@)),
{
    let ghost ser = |t: Seq<char>| ser_text(t);
    let ghost items = texts(v@);
    write_u64(out, v.len() as u64);
    let ghost start = out@;
    let mut i: usize = 0;
    proof {
        assert(items.take(0) =~= Seq::empty());
        assert(start + ser_items(items.take(0), ser) =~= start);
    }
    while i < v.len()
        invariant
            i <= v.len(),
            items == texts(v@),
            ser == (|t: Seq<char>| ser_text(t)),
            out@ == start + ser_items(items.take(i as int), ser),
            forall|k: int| 0 <= k < i ==> text_fits(#[trigger] items[k]),
        decreases v.len() - i,
    {
        let ghost before = out@;
        write_text(out, v[i].as_str());
        proof {
            assert(items.take(i + 1).drop_last() =~= items.take(i as int));
            assert(items.take(i + 1).last() == v@[i as int]@);
            assert(out@ =~= start + ser_items(items.take(i + 1), ser));
        }
        i += 1;
    }
    proof {
        assert(items.take(v.len() as int) =~= items);
        assert(out@ =~= old(out)@ + ser_texts(items));
    }
}

/// Appends the bytes of a metadata map.
fn write_meta(out: &mut Vec<u8>, m: &Metadata)
    ensures
        final(out)@ == old(out)@ + ser_meta(meta_view(m)),
        meta_valid(meta_view(m)),
{
    let ghost ser = |p: (Seq<char>, Seq<char>)| ser_pair(p);
    let ghost items = meta_view(m);
    proof {
        m.lemma_same_len();
        use_type_invariant(m);
        m.lemma_distinct();
        assert(pair_keys(items) =~= m.keys());
    }
    let n = m.len();
    write_u64(out, n as u64);
    let ghost start = out@;
    let mut i: usize = 0;
    proof {
        assert(items.take(0) =~= Seq::empty());
        assert(start + ser_items(items.take(0), ser) =~= start);
    }
    while i < n
        invariant
            i <= n,
            n == m.keys().len(),
            n == m.values().len(),
            items == meta_view(m),
            ser == (|p: (Seq<char>, Seq<char>)| ser_pair(p)),
            out@ == start + ser_items(items.take(i as int), ser),
            forall|k: int| 0 <= k < i ==> pair_fits(#[trigger] items[k]),
        decreases n - i,
    {
        let ghost before = out@;
        write_text(out, m.key_at(i).as_str());
        write_text(out, m.value_at(i).as_str());
        proof {
            assert(items.take(i + 1).drop_last() =~= items.take(i as int));
            assert(items.take(i + 1).last() == items[i as int]);
            assert(out@ =~= before + ser_pair(items[i as int]));
            assert(out@ =~= start + ser_items(items.take(i + 1), ser));
        }
        i += 1;
    }
    proof {
        assert(items.take(n as int) =~= items);
        assert(out@ =~= old(out)@ + ser_pairs(items));
    }
}

/// The number that stands for a kind.
fn kind_number(k: SymbolKind) -> (t: u64)
    ensures
        t == crate::codec::kind_tag(k),
{
    match k {
        SymbolKind::Class => 0,
        SymbolKind::Function => 1,
        SymbolKind::Method => 2,
        SymbolKind::MethodCall => 3,
        SymbolKind::Interface => 4,
        SymbolKind::Struct => 5,
    }
}

/// Appends the bytes of a field.
fn write_field(out: &mut Vec<u8>, f: &Field)
    ensures
        final(out)@ == old(out)@ + ser_field(f@),
        field_valid(f@),
{
    write_text(out, f.name.as_str());
    write_text(out, f.field_type.as_str());
    write_u64(out, f.start_line as u64);
    write_u64(out, f.end_line as u64);
    write_texts(out, &f.modifiers);
    write_meta(out, &f.metadata);
    proof {
        assert(out@ =~= old(out)@ + ser_field(f@));
    }
}

/// Appends the bytes of a list of fields.
fn write_fields(out: &mut Vec<u8>, v: &Vec<Field>)
    ensures
        final(out)@ == old(out)@ + ser_fields(field_views(v@)),
        fields_valid(field_views(v@)),
{
    let ghost ser = |f: FieldView| ser_field(f);
    let ghost items = field_views(v@);
    write_u64(out, v.len() as u64);
    let ghost start = out@;
    let mut i: usize = 0;
    proof {
        assert(items.take(0) =~= Seq::empty());
        assert(start + ser_items(items.take(0), ser) =~= start);
    }
    while i < v.len()
        invariant
            i <= v.len(),
            items == field_views(v@),
            ser == (|f: FieldView| ser_field(f)),
            out@ == start + ser_items(items.take(i as int), ser),
            forall|k: int| 0 <= k < i ==> field_valid(#[trigger] items[k]),
        decreases v.len() - i,
    {
        write_field(out, &v[i]);
        proof {
            assert(items.take(i + 1).drop_last() =~= items.take(i as int));
            assert(items.take(i + 1).last() == v@[i as int]@);
            assert(out@ =~= start + ser_items(items.take(i + 1), ser));
        }
        i += 1;
    }
    proof {
        assert(items.take(v.len() as int) =~= items);
        assert(out@ =~= old(out)@ + ser_fields(items));
    }
}

/// Appends the first part of the bytes of a symbol.
fn write_symbol_head(out: &mut Vec<u8>, s: &Symbol)
    ensures
        final(out)@ == old(out)@ + ser_symbol_head(s@),
        text_fits(s@.name),
        text_fits(s@.file_path),
        text_fits(s@.code),
{
    write_text(out, s.name.as_str());
    write_u64(out, kind_number(s.kind));
    write_text(out, s.file_path.as_str());
    let ghost a = out@;
    proof {
        assert(a =~= old(out)@ + (ser_text(s@.name) + (ser_kind(s@.kind) + ser_text(s@.file_path))));
    }
    write_u64(out, s.line as u64);
    write_u64(out, s.start_line as u64);
    write_u64(out, s.end_line as u64);
    write_text(out, s.code.as_str());
    proof {
        assert(out@ =~= a + (ser_u32(s@.line) + (ser_u32(s@.start_line) + (ser_u32(s@.end_line)
            + ser_text(s@.code)))));
        assert(out@ =~= old(out)@ + ser_symbol_head(s@));
    }
}

/// Appends the second part of the bytes of a symbol.
fn write_symbol_tail(out: &mut Vec<u8>, s: &Symbol)
    ensures
        final(out)@ == old(out)@ + ser_symbol_tail(s@),
        texts_fit(s@.parent_classes),
        text_fits(s@.package),
        texts_fit(s@.modifiers),
        fields_valid(s@.fields),
        meta_valid(s@.metadata),
        texts_fit(s@.subclasses),
{
    write_texts(out, &s.parent_classes);
    write_text(out, s.package.as_str());
    write_texts(out, &s.modifiers);
    let ghost a = out@;
    proof {
        assert(a =~= old(out)@ + (ser_texts(s@.parent_classes) + (ser_text(s@.package) + ser_texts(
            s@.modifiers,
        ))));
    }
    write_fields(out, &s.fields);
    write_meta(out, &s.metadata);
    write_texts(out, &s.subclasses);
    proof {
        assert(out@ =~= a + (ser_fields(s@.fields) + (ser_meta(s@.metadata) + ser_texts(
            s@.subclasses,
        ))));
        assert(out@ =~= old(out)@ + ser_symbol_tail(s@));
    }
}

/// Appends the bytes of a symbol.
fn write_symbol(out: &mut Vec<u8>, s: &Symbol)
    ensures
        final(out)@ == old(out)@ + ser_symbol(s@),
        symbol_valid(s@),
{
    write_symbol_head(out, s);
    write_symbol_tail(out, s);
    proof {
        assert(out@ =~= old(out)@ + ser_symbol(s@));
    }
}

/// Appends the bytes of a list of symbols.
fn write_symbols(out: &mut Vec<u8>, v: &Vec<Symbol>)
    ensures
        final(out)@ == old(out)@ + ser_symbols(symbol_views(v@)),
        symbols_valid(symbol_views(v@)),
{
    let ghost ser = |s: SymbolView| ser_symbol(s);
    let ghost items = symbol_views(v@);
    write_u64(out, v.len() as u64);
    let ghost start = out@;
    let mut i: usize = 0;
    proof {
        assert(items.take(0) =~= Seq::empty());
        assert(start + ser_items(items.take(0), ser) =~= start);
    }
    while i < v.len()
        invariant
            i <= v.len(),
            items == symbol_views(v@),
            ser == (|s: SymbolView| ser_symbol(s)),
            out@ == start + ser_items(items.take(i as int), ser),
            forall|k: int| 0 <= k < i ==> symbol_valid(#[trigger] items[k]),
        decreases v.len() - i,
    {
        write_symbol(out, &v[i]);
        proof {
            assert(items.take(i + 1).drop_last() =~= items.take(i as int));
            assert(items.take(i + 1).last() == v@[i as int]@);
            assert(out@ =~= start + ser_items(items.take(i + 1), ser));
        }
        i += 1;
    }
    proof {
        assert(items.take(v.len() as int) =~= items);
        assert(out@ =~= old(out)@ + ser_symbols(items));
    }
}

/// The bytes that stand for an index. Reading them gives back the index.
pub fn encode_cache(c: &CacheData) -> (bytes: Vec<u8>)
    ensures
        bytes@ == encoded(cache_view(*c)),
        cache_valid(cache_view(*c)),
        decoded(bytes@) == Some(cache_view(*c)),
{
    let mut out: Vec<u8> = Vec::new();
    let ghost ser = |f: FileView| ser_file(f);
    let ghost items = cache_view(*c).files;
    proof {
        c.index.lemma_same_len();
        use_type_invariant(&c.index);
        c.index.lemma_distinct();
        assert(file_paths(items) =~= c.index.keys());
    }
    let n = c.index.len();
    write_u64(&mut out, n as u64);
    let ghost start = out@;
    let mut i: usize = 0;
    proof {
        assert(items.take(0) =~= Seq::empty());
        assert(start + ser_items(items.take(0), ser) =~= start);
    }
    while i < n
        invariant
            i <= n,
            n == c.index.keys().len(),
            n == c.index.values().len(),
            items == cache_view(*c).files,
            ser == (|f: FileView| ser_file(f)),
            out@ == start + ser_items(items.take(i as int), ser),
            forall|k: int| 0 <= k < i ==> file_valid(#[trigger] items[k]),
        decreases n - i,
    {
        let ghost before = out@;
        let entry = c.index.value_at(i);
        write_text(&mut out, c.index.key_at(i).as_str());
        write_u64(&mut out, entry.mtime);
        write_symbols(&mut out, &entry.symbols);
        proof {
            assert(items.take(i + 1).drop_last() =~= items.take(i as int));
            assert(items.take(i + 1).last() == items[i as int]);
            assert(out@ =~= before + ser_file(items[i as int]));
            assert(out@ =~= start + ser_items(items.take(i + 1), ser));
        }
        i += 1;
    }
    proof {
        assert(items.take(n as int) =~= items);
        assert(out@ =~= ser_list(items, ser));
    }
    write_meta(&mut out, &c.class_map);
    write_text(&mut out, c.build_time.as_str());
    proof {
        assert(out@ =~= encoded(cache_view(*c)));
        lemma_cache_roundtrip(cache_view(*c));
    }
    out
}

/// What is left of `bytes` from `pos` on.
pub open spec fn tail(bytes: &[u8], pos: usize) -> Seq<u8> {
    bytes@.skip(pos as int)
}

/// Skipping twice is skipping once by the sum.
proof fn lemma_tail_skip(bytes: &[u8], pos: usize, next: usize)
    requires
        pos <= next <= bytes@.len(),
    ensures
        tail(bytes, pos).skip(next - pos) == tail(bytes, next),
{
    assert(tail(bytes, pos).skip(next - pos) =~= tail(bytes, next));
}

/// Reads a number at `pos`.
fn read_u64(bytes: &[u8], pos: usize) -> (r: Option<(u64, usize)>)
    requires
        pos <= bytes@.len(),
    ensures
        match r {
            Some((x, next)) => pos <= next <= bytes@.len() && parse_u64(tail(bytes, pos)) == Some(
                (x, (next - pos) as int),
            ),
            None => parse_u64(tail(bytes, pos)) is None,
        },
{
    if bytes.len() - pos < 8 {
        return None;
    }
    let part = slice_subrange(bytes, pos, pos + 8);
    proof {
        assert(part@ =~= tail(bytes, pos).take(8));
    }
    Some((u64_from_le_bytes(part), pos + 8))
}

/// Reads a small number at `pos`.
fn read_u32(bytes: &[u8], pos: usize) -> (r: Option<(u32, usize)>)
    requires
        pos <= bytes@.len(),
    ensures
        match r {
            Some((x, next)) => pos <= next <= bytes@.len() && parse_u32(tail(bytes, pos)) == Some(
                (x, (next - pos) as int),
            ),
            None => parse_u32(tail(bytes, pos)) is None,
        },
{
    match read_u64(bytes, pos) {
        None => None,
        Some((x, next)) => if x <= 0xFFFF_FFFF {
            Some((x as u32, next))
        } else {
            None
        },
    }
}

/// Reads a kind at `pos`.
fn read_kind(bytes: &[u8], pos: usize) -> (r: Option<(SymbolKind, usize)>)
    requires
        pos <= bytes@.len(),
    ensures
        match r {
            Some((k, next)) => pos <= next <= bytes@.len() && parse_kind(tail(bytes, pos)) == Some(
                (k, (next - pos) as int),
            ),
            None => parse_kind(tail(bytes, pos)) is None,
        },
{
    match read_u64(bytes, pos) {
        None => None,
        Some((t, next)) => {
            if t == 0 {
                Some((SymbolKind::Class, next))
            } else if t == 1 {
                Some((SymbolKind::Function, next))
            } else if t == 2 {
                Some((SymbolKind::Method, next))
            } else if t == 3 {
                Some((SymbolKind::MethodCall, next))
            } else if t == 4 {
                Some((SymbolKind::Interface, next))
            } else if t == 5 {
                Some((SymbolKind::Struct, next))
            } else {
                None
            }
        },
    }
}

/// Reads a text at `pos`.
fn read_text(bytes: &[u8], pos: usize) -> (r: Option<(String, usize)>)
    requires
        pos <= bytes@.len(),
    ensures
        match r {
            Some((t, next)) => pos <= next <= bytes@.len() && parse_text(tail(bytes, pos)) == Some(
                (t@, (next - pos) as int),
            ),
            None => parse_text(tail(bytes, pos)) is None,
        },
{
    match read_u64(bytes, pos) {
        None => None,
        Some((n, start)) => {
            if ((bytes.len() - start) as u64) < n {
                return None;
            }
            let end = start + (n as usize);
            let body = slice_subrange(bytes, start, end);
            proof {
                assert(body@ =~= tail(bytes, pos).subrange(8, 8 + n));
            }
            match utf8_to_string(body) {
                Some(t) => Some((t, end)),
                None => None,
            }
        },
    }
}

/// Reads a list of texts at `pos`.
fn read_texts(bytes: &[u8], pos: usize) -> (r: Option<(Vec<String>, usize)>)
    requires
        pos <= bytes@.len(),
    ensures
        match r {
            Some((v, next)) => pos <= next <= bytes@.len() && parse_texts(tail(bytes, pos)) == Some(
                (texts(v@), (next - pos) as int),
            ),
            None => parse_texts(tail(bytes, pos)) is None,
        },
{
    proof {
        reveal(parse_texts);
    }
    let ghost parse = |b: Seq<u8>| parse_text(b);
    match read_u64(bytes, pos) {
        None => None,
        Some((n, start)) => {
            let ghost s = tail(bytes, start);
            proof {
                lemma_tail_skip(bytes, pos, start);
            }
            let mut items: Vec<String> = Vec::new();
            let mut p: usize = start;
            let mut i: u64 = 0;
            proof {
                assert(texts(items@) =~= Seq::empty());
            }
            while i < n
                invariant
                    i <= n,
                    start <= p <= bytes@.len(),
                    s == tail(bytes, start),
                    parse_u64(tail(bytes, pos)) == Some((n, 8int)),
                    tail(bytes, pos).skip(8) == s,
                    parse == (|b: Seq<u8>| parse_text(b)),
                    parse_items(s, i as nat, parse) == Some((texts(items@), (p - start) as int)),
                decreases n - i,
            {
                proof {
                    lemma_tail_skip(bytes, start, p);
                }
                match read_text(bytes, p) {
                    None => {
                        proof {
                            reveal(parse_texts);
                            assert(parse_items(s, (i + 1) as nat, parse) is None);
                            lemma_parse_items_fails(s, (i + 1) as nat, n as nat, parse);
                        }
                        return None;
                    },
                    Some((t, next)) => {
                        let ghost before = texts(items@);
                        items.push(t);
                        proof {
                            assert(texts(items@) =~= before.push(t@));
                        }
                        p = next;
                    },
                }
                i += 1;
            }
            Some((items, p))
        },
    }
}

/// The contents of a list of pairs of strings.
pub open spec fn pair_views(v: Seq<(String, String)>) -> Pairs {
    v.map_values(|p: (String, String)| (p.0@, p.1@))
}

/// Reads a metadata map at `pos`.
fn read_meta(bytes: &[u8], pos: usize) -> (r: Option<(Metadata, usize)>)
    requires
        pos <= bytes@.len(),
    ensures
        match r {
            Some((m, next)) => pos <= next <= bytes@.len() && parse_meta(tail(bytes, pos)) == Some(
                (meta_view(&m), (next - pos) as int),
            ),
            None => parse_meta(tail(bytes, pos)) is None,
        },
{
    proof {
        reveal(parse_meta);
        reveal(parse_pairs);
    }
    let ghost parse = |b: Seq<u8>| parse_pair(b);
    match read_u64(bytes, pos) {
        None => None,
        Some((n, start)) => {
            let ghost s = tail(bytes, start);
            proof {
                lemma_tail_skip(bytes, pos, start);
            }
            let mut items: Vec<(String, String)> = Vec::new();
            let mut p: usize = start;
            let mut i: u64 = 0;
            proof {
                assert(pair_views(items@) =~= Seq::empty());
            }
            while i < n
                invariant
                    i <= n,
                    start <= p <= bytes@.len(),
                    s == tail(bytes, start),
                    parse_u64(tail(bytes, pos)) == Some((n, 8int)),
                    tail(bytes, pos).skip(8) == s,
                    parse == (|b: Seq<u8>| parse_pair(b)),
                    parse_items(s, i as nat, parse) == Some((pair_views(items@), (p - start) as int)),
                decreases n - i,
            {
                proof {
                    lemma_tail_skip(bytes, start, p);
                }
                let key = match read_text(bytes, p) {
                    None => {
                        proof {
                            reveal(parse_meta);
                            reveal(parse_pairs);
                            assert(parse_items(s, (i + 1) as nat, parse) is None);
                            lemma_parse_items_fails(s, (i + 1) as nat, n as nat, parse);
                        }
                        return None;
                    },
                    Some(x) => x,
                };
                proof {
                    lemma_tail_skip(bytes, p, key.1);
                }
                let value = match read_text(bytes, key.1) {
                    None => {
                        proof {
                            reveal(parse_meta);
                            reveal(parse_pairs);
                            assert(parse_items(s, (i + 1) as nat, parse) is None);
                            lemma_parse_items_fails(s, (i + 1) as nat, n as nat, parse);
                        }
                        return None;
                    },
                    Some(x) => x,
                };
                let ghost before = pair_views(items@);
                let ghost pair = (key.0@, value.0@);
                p = value.1;
                items.push((key.0, value.0));
                proof {
                    assert(pair_views(items@) =~= before.push(pair));
                }
                i += 1;
            }
            let ghost all = pair_views(items@);
            proof {
                assert(crate::strmap::entry_keys(items@) =~= pair_keys(all));
            }
            match StrMap::from_entries(items) {
                None => None,
                Some(m) => {
                    proof {
                        m.lemma_same_len();
                        assert(meta_view(&m) =~= all);
                    }
                    Some((m, p))
                },
            }
        },
    }
}

/// Reads a field at `pos`.
fn read_field(bytes: &[u8], pos: usize) -> (r: Option<(Field, usize)>)
    requires
        pos <= bytes@.len(),
    ensures
        match r {
            Some((f, next)) => pos <= next <= bytes@.len() && parse_field(tail(bytes, pos)) == Some(
                (f@, (next - pos) as int),
            ),
            None => parse_field(tail(bytes, pos)) is None,
        },
{
    proof {
        reveal(parse_field);
    }
    let name = match read_text(bytes, pos) {
        None => {
            return None;
        },
        Some(x) => x,
    };
    proof {
        lemma_tail_skip(bytes, pos, name.1);
    }
    let field_type = match read_text(bytes, name.1) {
        None => {
            return None;
        },
        Some(x) => x,
    };
    proof {
        lemma_tail_skip(bytes, pos, field_type.1);
    }
    let start_line = match read_u32(bytes, field_type.1) {
        None => {
            return None;
        },
        Some(x) => x,
    };
    proof {
        lemma_tail_skip(bytes, pos, start_line.1);
    }
    let end_line = match read_u32(bytes, start_line.1) {
        None => {
            return None;
        },
        Some(x) => x,
    };
    proof {
        lemma_tail_skip(bytes, pos, end_line.1);
    }
    let modifiers = match read_texts(bytes, end_line.1) {
        None => {
            return None;
        },
        Some(x) => x,
    };
    proof {
        lemma_tail_skip(bytes, pos, modifiers.1);
    }
    let metadata = match read_meta(bytes, modifiers.1) {
        None => {
            return None;
        },
        Some(x) => x,
    };
    let f = Field {
        name: name.0,
        field_type: field_type.0,
        start_line: start_line.0,
        end_line: end_line.0,
        modifiers: modifiers.0,
        metadata: metadata.0,
    };
    proof {
        let parsed = parse_field(tail(bytes, pos)).unwrap();
        crate::symbol::lemma_field_view_eq(f@, parsed.0);
    }
    Some((f, metadata.1))
}

/// Reads a list of fields at `pos`.
fn read_fields(bytes: &[u8], pos: usize) -> (r: Option<(Vec<Field>, usize)>)
    requires
        pos <= bytes@.len(),
    ensures
        match r {
            Some((v, next)) => pos <= next <= bytes@.len() && parse_fields(tail(bytes, pos)) == Some(
                (field_views(v@), (next - pos) as int),
            ),
            None => parse_fields(tail(bytes, pos)) is None,
        },
{
    proof {
        reveal(parse_fields);
    }
    let ghost parse = |b: Seq<u8>| parse_field(b);
    match read_u64(bytes, pos) {
        None => None,
        Some((n, start)) => {
            let ghost s = tail(bytes, start);
            proof {
                lemma_tail_skip(bytes, pos, start);
            }
            let mut items: Vec<Field> = Vec::new();
            let mut p: usize = start;
            let mut i: u64 = 0;
            proof {
                assert(field_views(items@) =~= Seq::empty());
            }
            while i < n
                invariant
                    i <= n,
                    start <= p <= bytes@.len(),
                    s == tail(bytes, start),
                    parse_u64(tail(bytes, pos)) == Some((n, 8int)),
                    tail(bytes, pos).skip(8) == s,
                    parse == (|b: Seq<u8>| parse_field(b)),
                    parse_items(s, i as nat, parse) == Some(
                        (field_views(items@), (p - start) as int),
                    ),
                decreases n - i,
            {
                proof {
                    lemma_tail_skip(bytes, start, p);
                }
                match read_field(bytes, p) {
                    None => {
                        proof {
                            reveal(parse_fields);
                            assert(parse_items(s, (i + 1) as nat, parse) is None);
                            lemma_parse_items_fails(s, (i + 1) as nat, n as nat, parse);
                        }
                        return None;
                    },
                    Some((f, next)) => {
                        let ghost before = field_views(items@);
                        let ghost view = f@;
                        items.push(f);
                        proof {
                            assert(field_views(items@) =~= before.push(view));
                        }
                        p = next;
                    },
                }
                i += 1;
            }
            Some((items, p))
        },
    }
}

/// What was read of the first part of a symbol.
struct HeadParts {
    name: String,
    kind: SymbolKind,
    file_path: String,
    line: u32,
    start_line: u32,
    end_line: u32,
    code: String,
}

/// What was read of the second part of a symbol.
struct TailParts {
    parent_classes: Vec<String>,
    package: String,
    modifiers: Vec<String>,
    fields: Vec<Field>,
    metadata: Metadata,
    subclasses: Vec<String>,
}

spec fn head_view(h: HeadParts) -> SymbolHead {
    SymbolHead {
        name: h.name@,
        kind: h.kind,
        file_path: h.file_path@,
        line: h.line,
        start_line: h.start_line,
        end_line: h.end_line,
        code: h.code@,
    }
}

spec fn tail_view(t: TailParts) -> SymbolTail {
    SymbolTail {
        parent_classes: texts(t.parent_classes@),
        package: t.package@,
        modifiers: texts(t.modifiers@),
        fields: field_views(t.fields@),
        metadata: meta_view(&t.metadata),
        subclasses: texts(t.subclasses@),
    }
}

fn read_symbol_head(bytes: &[u8], pos: usize) -> (r: Option<(HeadParts, usize)>)
    requires
        pos <= bytes@.len(),
    ensures
        match r {
            Some((h, next)) => pos <= next <= bytes@.len() && parse_symbol_head(tail(bytes, pos))
                == Some((head_view(h), (next - pos) as int)),
            None => parse_symbol_head(tail(bytes, pos)) is None,
        },
{
    proof {
        reveal(parse_symbol_head);
    }
    let name = match read_text(bytes, pos) {
        None => {
            return None;
        },
        Some(x) => x,
    };
    proof {
        lemma_tail_skip(bytes, pos, name.1);
    }
    let kind = match read_kind(bytes, name.1) {
        None => {
            return None;
        },
        Some(x) => x,
    };
    proof {
        lemma_tail_skip(bytes, pos, kind.1);
    }
    let file_path = match read_text(bytes, kind.1) {
        None => {
            return None;
        },
        Some(x) => x,
    };
    proof {
        lemma_tail_skip(bytes, pos, file_path.1);
    }
    let line = match read_u32(bytes, file_path.1) {
        None => {
            return None;
        },
        Some(x) => x,
    };
    proof {
        lemma_tail_skip(bytes, pos, line.1);
    }
    let start_line = match read_u32(bytes, line.1) {
        None => {
            return None;
        },
        Some(x) => x,
    };
    proof {
        lemma_tail_skip(bytes, pos, start_line.1);
    }
    let end_line = match read_u32(bytes, start_line.1) {
        None => {
            return None;
        },
        Some(x) => x,
    };
    proof {
        lemma_tail_skip(bytes, pos, end_line.1);
    }
    let code = match read_text(bytes, end_line.1) {
        None => {
            return None;
        },
        Some(x) => x,
    };
    Some(
        (
            HeadParts {
                name: name.0,
                kind: kind.0,
                file_path: file_path.0,
                line: line.0,
                start_line: start_line.0,
                end_line: end_line.0,
                code: code.0,
            },
            code.1,
        ),
    )
}

fn read_symbol_tail(bytes: &[u8], pos: usize) -> (r: Option<(TailParts, usize)>)
    requires
        pos <= bytes@.len(),
    ensures
        match r {
            Some((t, next)) => pos <= next <= bytes@.len() && parse_symbol_tail(tail(bytes, pos))
                == Some((tail_view(t), (next - pos) as int)),
            None => parse_symbol_tail(tail(bytes, pos)) is None,
        },
{
    proof {
        reveal(parse_symbol_tail);
    }
    let parent_classes = match read_texts(bytes, pos) {
        None => {
            return None;
        },
        Some(x) => x,
    };
    proof {
        lemma_tail_skip(bytes, pos, parent_classes.1);
    }
    let package = match read_text(bytes, parent_classes.1) {
        None => {
            return None;
        },
        Some(x) => x,
    };
    proof {
        lemma_tail_skip(bytes, pos, package.1);
    }
    let modifiers = match read_texts(bytes, package.1) {
        None => {
            return None;
        },
        Some(x) => x,
    };
    proof {
        lemma_tail_skip(bytes, pos, modifiers.1);
    }
    let fields = match read_fields(bytes, modifiers.1) {
        None => {
            return None;
        },
        Some(x) => x,
    };
    proof {
        lemma_tail_skip(bytes, pos, fields.1);
    }
    let metadata = match read_meta(bytes, fields.1) {
        None => {
            return None;
        },
        Some(x) => x,
    };
    proof {
        lemma_tail_skip(bytes, pos, metadata.1);
    }
    let subclasses = match read_texts(bytes, metadata.1) {
        None => {
            return None;
        },
        Some(x) => x,
    };
    Some(
        (
            TailParts {
                parent_classes: parent_classes.0,
                package: package.0,
                modifiers: modifiers.0,
                fields: fields.0,
                metadata: metadata.0,
                subclasses: subclasses.0,
            },
            subclasses.1,
        ),
    )
}

/// Reads a symbol at `pos`.
fn read_symbol(bytes: &[u8], pos: usize) -> (r: Option<(Symbol, usize)>)
    requires
        pos <= bytes@.len(),
    ensures
        match r {
            Some((s, next)) => pos <= next <= bytes@.len() && parse_symbol(tail(bytes, pos)) == Some(
                (s@, (next - pos) as int),
            ),
            None => parse_symbol(tail(bytes, pos)) is None,
        },
{
    proof {
        reveal(parse_symbol);
    }
    let head = match read_symbol_head(bytes, pos) {
        None => {
            return None;
        },
        Some(x) => x,
    };
    proof {
        lemma_tail_skip(bytes, pos, head.1);
    }
    let rest = match read_symbol_tail(bytes, head.1) {
        None => {
            return None;
        },
        Some(x) => x,
    };
    let ghost hv = head_view(head.0);
    let ghost tv = tail_view(rest.0);
    let h = head.0;
    let t = rest.0;
    let s = Symbol {
        name: h.name,
        kind: h.kind,
        file_path: h.file_path,
        line: h.line,
        start_line: h.start_line,
        end_line: h.end_line,
        code: h.code,
        parent_classes: t.parent_classes,
        package: t.package,
        modifiers: t.modifiers,
        fields: t.fields,
        metadata: t.metadata,
        subclasses: t.subclasses,
    };
    proof {
        crate::symbol::lemma_symbol_view_eq(s@, join_symbol(hv, tv));
    }
    Some((s, rest.1))
}

/// Reads a list of symbols at `pos`.
fn read_symbols(bytes: &[u8], pos: usize) -> (r: Option<(Vec<Symbol>, usize)>)
    requires
        pos <= bytes@.len(),
    ensures
        match r {
            Some((v, next)) => pos <= next <= bytes@.len() && parse_symbols(tail(bytes, pos))
                == Some((symbol_views(v@), (next - pos) as int)),
            None => parse_symbols(tail(bytes, pos)) is None,
        },
{
    proof {
        reveal(parse_symbols);
    }
    let ghost parse = |b: Seq<u8>| parse_symbol(b);
    match read_u64(bytes, pos) {
        None => None,
        Some((n, start)) => {
            let ghost s = tail(bytes, start);
            proof {
                lemma_tail_skip(bytes, pos, start);
            }
            let mut items: Vec<Symbol> = Vec::new();
            let mut p: usize = start;
            let mut i: u64 = 0;
            proof {
                assert(symbol_views(items@) =~= Seq::empty());
            }
            while i < n
                invariant
                    i <= n,
                    start <= p <= bytes@.len(),
                    s == tail(bytes, start),
                    parse_u64(tail(bytes, pos)) == Some((n, 8int)),
                    tail(bytes, pos).skip(8) == s,
                    parse == (|b: Seq<u8>| parse_symbol(b)),
                    parse_items(s, i as nat, parse) == Some(
                        (symbol_views(items@), (p - start) as int),
                    ),
                decreases n - i,
            {
                proof {
                    lemma_tail_skip(bytes, start, p);
                }
                match read_symbol(bytes, p) {
                    None => {
                        proof {
                            reveal(parse_symbols);
                            assert(parse_items(s, (i + 1) as nat, parse) is None);
                            lemma_parse_items_fails(s, (i + 1) as nat, n as nat, parse);
                        }
                        return None;
                    },
                    Some((sym, next)) => {
                        let ghost before = symbol_views(items@);
                        let ghost view = sym@;
                        items.push(sym);
                        proof {
                            assert(symbol_views(items@) =~= before.push(view));
                        }
                        p = next;
                    },
                }
                i += 1;
            }
            Some((items, p))
        },
    }
}

/// The contents of a list of file entries.
pub open spec fn entry_file_views(v: Seq<(String, FileIndex)>) -> Seq<FileView> {
    v.map_values(|e: (String, FileIndex)| file_view(e.0@, e.1))
}

/// Reads a file entry at `pos`.
fn read_file_entry(bytes: &[u8], pos: usize) -> (r: Option<((String, FileIndex), usize)>)
    requires
        pos <= bytes@.len(),
    ensures
        match r {
            Some((e, next)) => pos <= next <= bytes@.len() && parse_file(tail(bytes, pos)) == Some(
                (file_view(e.0@, e.1), (next - pos) as int),
            ),
            None => parse_file(tail(bytes, pos)) is None,
        },
{
    proof {
        reveal(parse_file);
    }
    let path = match read_text(bytes, pos) {
        None => {
            return None;
        },
        Some(x) => x,
    };
    proof {
        lemma_tail_skip(bytes, pos, path.1);
    }
    let mtime = match read_u64(bytes, path.1) {
        None => {
            return None;
        },
        Some(x) => x,
    };
    proof {
        lemma_tail_skip(bytes, pos, mtime.1);
    }
    let symbols = match read_symbols(bytes, mtime.1) {
        None => {
            return None;
        },
        Some(x) => x,
    };
    Some(((path.0, FileIndex { mtime: mtime.0, symbols: symbols.0 }), symbols.1))
}

/// The index that bytes stand for, where they stand for one.
pub fn decode_cache(bytes: &[u8]) -> (r: Option<CacheData>)
    ensures
        match r {
            Some(c) => decoded(bytes@) == Some(cache_view(c)),
            None => decoded(bytes@) is None,
        },
{
    let ghost parse = |b: Seq<u8>| parse_file(b);
    proof {
        assert(tail(bytes, 0) =~= bytes@);
    }
    let (n, start) = match read_u64(bytes, 0) {
        None => {
            return None;
        },
        Some(x) => x,
    };
    let ghost s = tail(bytes, start);
    proof {
        lemma_tail_skip(bytes, 0, start);
    }
    let mut items: Vec<(String, FileIndex)> = Vec::new();
    let mut p: usize = start;
    let mut i: u64 = 0;
    proof {
        assert(entry_file_views(items@) =~= Seq::empty());
    }
    while i < n
        invariant
            i <= n,
            start <= p <= bytes@.len(),
            s == tail(bytes, start),
            parse_u64(bytes@) == Some((n, 8int)),
            bytes@.skip(8) == s,
            parse == (|b: Seq<u8>| parse_file(b)),
            parse_items(s, i as nat, parse) == Some((entry_file_views(items@), (p - start) as int)),
        decreases n - i,
    {
        proof {
            lemma_tail_skip(bytes, start, p);
        }
        match read_file_entry(bytes, p) {
            None => {
                proof {
                    assert(parse_items(s, (i + 1) as nat, parse) is None);
                    lemma_parse_items_fails(s, (i + 1) as nat, n as nat, parse);
                }
                return None;
            },
            Some((e, next)) => {
                let ghost before = entry_file_views(items@);
                let ghost view = file_view(e.0@, e.1);
                items.push(e);
                proof {
                    assert(entry_file_views(items@) =~= before.push(view));
                }
                p = next;
            },
        }
        i += 1;
    }
    let ghost files = entry_file_views(items@);
    let ghost entries = items@;
    proof {
        assert(crate::strmap::entry_keys(items@) =~= file_paths(files));
    }
    let index = match StrMap::from_entries(items) {
        None => {
            return None;
        },
        Some(m) => m,
    };
    proof {
        lemma_tail_skip(bytes, 0, p);
    }
    let class_map = match read_meta(bytes, p) {
        None => {
            return None;
        },
        Some(x) => x,
    };
    proof {
        lemma_tail_skip(bytes, 0, class_map.1);
    }
    let build_time = match read_text(bytes, class_map.1) {
        None => {
            return None;
        },
        Some(x) => x,
    };
    if build_time.1 != bytes.len() {
        return None;
    }
    let c = CacheData { index, class_map: class_map.0, build_time: build_time.0 };
    proof {
        c.index.lemma_same_len();
        assert(cache_view(c).files =~= files);
    }
    Some(c)
}

} // verus!
