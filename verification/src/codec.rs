//! The binary form of the index: how an index is written to bytes and read
//! back, and the proof that reading gives back what was written.
//!
//! Numbers are eight bytes, least significant first. A text is the number
//! of its UTF-8 bytes and then the bytes. A list is the number of its
//! items and then the items.

use crate::symbol::{pair_keys, FieldView, Pairs, SymbolKind, SymbolView};
use vstd::bytes::{
    lemma_auto_spec_u64_to_from_le_bytes, spec_u64_from_le_bytes, spec_u64_to_le_bytes,
};
use vstd::prelude::*;
use vstd::utf8::{
    decode_utf8, encode_utf8, encode_utf8_decode_utf8, encode_utf8_valid_utf8, valid_utf8,
};

verus! {

/// `str::from_utf8` of std, with the text copied out: the bytes as a
/// string exactly when they are valid UTF-8, and then a string with just
/// those bytes.
#[verifier::external_body]
pub(crate) fn utf8_to_string(bytes: &[u8]) -> (r: Option<String>)
    ensures
        r is Some <==> valid_utf8(bytes@),
        r matches Some(s) ==> s@ == decode_utf8(bytes@),
{
    std::str::from_utf8(bytes).ok().map(|s| s.to_string())
}

/// What follows a prefix is what was put behind it.
pub proof fn lemma_skip_concat(a: Seq<u8>, b: Seq<u8>)
    ensures
        (a + b).skip(a.len() as int) == b,
        (a + b).take(a.len() as int) == a,
        (a + b).subrange(0, a.len() as int) == a,
{
    assert((a + b).skip(a.len() as int) =~= b);
    assert((a + b).take(a.len() as int) =~= a);
    assert((a + b).subrange(0, a.len() as int) =~= a);
}

/// The bytes of a number.
pub open spec fn ser_u64(x: u64) -> Seq<u8> {
    spec_u64_to_le_bytes(x)
}

/// The number at the start of `s`, with the count of bytes it takes.
pub open spec fn parse_u64(s: Seq<u8>) -> Option<(u64, int)> {
    if s.len() < 8 {
        None
    } else {
        Some((spec_u64_from_le_bytes(s.take(8)), 8int))
    }
}

/// A number is read back from its bytes, whatever follows them.
pub proof fn lemma_u64_roundtrip(x: u64, rest: Seq<u8>)
    ensures
        ser_u64(x).len() == 8,
        parse_u64(ser_u64(x) + rest) == Some((x, 8int)),
{
    lemma_auto_spec_u64_to_from_le_bytes();
    lemma_skip_concat(ser_u64(x), rest);
}

/// The bytes of a small number.
pub open spec fn ser_u32(x: u32) -> Seq<u8> {
    ser_u64(x as u64)
}

/// The small number at the start of `s`.
pub open spec fn parse_u32(s: Seq<u8>) -> Option<(u32, int)> {
    match parse_u64(s) {
        Some((x, k)) => if x <= u32::MAX {
            Some((x as u32, k))
        } else {
            None
        },
        None => None,
    }
}

/// A small number is read back from its bytes, whatever follows them.
pub proof fn lemma_u32_roundtrip(x: u32, rest: Seq<u8>)
    ensures
        ser_u32(x).len() == 8,
        parse_u32(ser_u32(x) + rest) == Some((x, 8int)),
{
    lemma_u64_roundtrip(x as u64, rest);
}

/// The bytes of a text.
pub open spec fn ser_text(t: Seq<char>) -> Seq<u8> {
    ser_u64(encode_utf8(t).len() as u64) + encode_utf8(t)
}

/// The text at the start of `s`.
pub open spec fn parse_text(s: Seq<u8>) -> Option<(Seq<char>, int)> {
    match parse_u64(s) {
        None => None,
        Some((n, _)) => if s.len() - 8 < n {
            None
        } else if valid_utf8(s.subrange(8, 8 + n)) {
            Some((decode_utf8(s.subrange(8, 8 + n)), 8 + n))
        } else {
            None
        },
    }
}

/// Whether a text can be written: its UTF-8 form has a length that fits a
/// number.
pub open spec fn text_fits(t: Seq<char>) -> bool {
    encode_utf8(t).len() <= u64::MAX
}

/// A text is read back from its bytes, whatever follows them.
pub proof fn lemma_text_roundtrip(t: Seq<char>, rest: Seq<u8>)
    requires
        text_fits(t),
    ensures
        parse_text(ser_text(t) + rest) == Some((t, ser_text(t).len() as int)),
{
    let body = encode_utf8(t);
    let n = body.len() as u64;
    let all = ser_text(t) + rest;
    lemma_u64_roundtrip(n, body + rest);
    assert(all =~= ser_u64(n) + (body + rest));
    assert(all.subrange(8, 8 + n) =~= body);
    encode_utf8_valid_utf8(t);
    encode_utf8_decode_utf8(t);
}

/// The bytes of the items, item after item.
pub open spec fn ser_items<T>(items: Seq<T>, ser: spec_fn(T) -> Seq<u8>) -> Seq<u8>
    decreases items.len(),
{
    if items.len() == 0 {
        Seq::empty()
    } else {
        ser_items(items.drop_last(), ser) + ser(items.last())
    }
}

/// The first `n` items at the start of `s`, with the count of bytes they
/// take.
pub open spec fn parse_items<T>(
    s: Seq<u8>,
    n: nat,
    parse: spec_fn(Seq<u8>) -> Option<(T, int)>,
) -> Option<(Seq<T>, int)>
    decreases n,
{
    if n == 0 {
        Some((Seq::empty(), 0int))
    } else {
        match parse_items(s, (n - 1) as nat, parse) {
            None => None,
            Some((head, used)) => if 0 <= used <= s.len() {
                match parse(s.skip(used)) {
                    None => None,
                    Some((x, k)) => if 0 <= k <= s.len() - used {
                        Some((head.push(x), used + k))
                    } else {
                        None
                    },
                }
            } else {
                None
            },
        }
    }
}

/// Where fewer items cannot be read, more cannot be read either.
pub proof fn lemma_parse_items_fails<T>(
    s: Seq<u8>,
    i: nat,
    n: nat,
    parse: spec_fn(Seq<u8>) -> Option<(T, int)>,
)
    requires
        i <= n,
        parse_items(s, i, parse) is None,
    ensures
        parse_items(s, n, parse) is None,
    decreases n,
{
    if i < n {
        lemma_parse_items_fails(s, i, (n - 1) as nat, parse);
    }
}

/// Whether `parse` reads back what `ser` writes of `x`, whatever follows.
pub open spec fn reads_back<T>(
    x: T,
    ser: spec_fn(T) -> Seq<u8>,
    parse: spec_fn(Seq<u8>) -> Option<(T, int)>,
) -> bool {
    forall|rest: Seq<u8>| #[trigger] parse(ser(x) + rest) == Some((x, ser(x).len() as int))
}

/// Items that are each read back are read back one after the other.
pub proof fn lemma_items_roundtrip<T>(
    items: Seq<T>,
    ser: spec_fn(T) -> Seq<u8>,
    parse: spec_fn(Seq<u8>) -> Option<(T, int)>,
    rest: Seq<u8>,
)
    requires
        forall|i: int| 0 <= i < items.len() ==> reads_back(#[trigger] items[i], ser, parse),
    ensures
        parse_items(ser_items(items, ser) + rest, items.len(), parse) == Some(
            (items, ser_items(items, ser).len() as int),
        ),
    decreases items.len(),
{
    if items.len() > 0 {
        let head = items.drop_last();
        let last = items.last();
        let all = ser_items(items, ser) + rest;
        assert forall|i: int| 0 <= i < head.len() implies reads_back(#[trigger] head[i], ser, parse) by {
            assert(head[i] == items[i]);
        }
        lemma_items_roundtrip(head, ser, parse, ser(last) + rest);
        assert(all =~= ser_items(head, ser) + (ser(last) + rest));
        lemma_skip_concat(ser_items(head, ser), ser(last) + rest);
        assert(reads_back(items[items.len() - 1], ser, parse));
        assert(parse(ser(last) + rest) == Some((last, ser(last).len() as int)));
        assert(head.push(last) =~= items);
    }
}

/// The bytes of a list: the number of its items, then the items.
pub open spec fn ser_list<T>(items: Seq<T>, ser: spec_fn(T) -> Seq<u8>) -> Seq<u8> {
    ser_u64(items.len() as u64) + ser_items(items, ser)
}

/// The list at the start of `s`.
pub open spec fn parse_list<T>(s: Seq<u8>, parse: spec_fn(Seq<u8>) -> Option<(T, int)>) -> Option<
    (Seq<T>, int),
> {
    match parse_u64(s) {
        None => None,
        Some((n, _)) => match parse_items(s.skip(8), n as nat, parse) {
            None => None,
            Some((items, used)) => Some((items, 8 + used)),
        },
    }
}

/// A list of items that are each read back is read back.
pub proof fn lemma_list_roundtrip<T>(
    items: Seq<T>,
    ser: spec_fn(T) -> Seq<u8>,
    parse: spec_fn(Seq<u8>) -> Option<(T, int)>,
    rest: Seq<u8>,
)
    requires
        items.len() <= u64::MAX,
        forall|i: int| 0 <= i < items.len() ==> reads_back(#[trigger] items[i], ser, parse),
    ensures
        parse_list(ser_list(items, ser) + rest, parse) == Some(
            (items, ser_list(items, ser).len() as int),
        ),
{
    let n = items.len() as u64;
    let body = ser_items(items, ser);
    let all = ser_list(items, ser) + rest;
    lemma_u64_roundtrip(n, body + rest);
    assert(all =~= ser_u64(n) + (body + rest));
    lemma_skip_concat(ser_u64(n), body + rest);
    lemma_items_roundtrip(items, ser, parse, rest);
}

/// The bytes of a list of texts.
pub open spec fn ser_texts(items: Seq<Seq<char>>) -> Seq<u8> {
    ser_list(items, |t: Seq<char>| ser_text(t))
}

/// The list of texts at the start of `s`.
#[verifier::opaque]
pub open spec fn parse_texts(s: Seq<u8>) -> Option<(Seq<Seq<char>>, int)> {
    parse_list(s, |b: Seq<u8>| parse_text(b))
}

/// Whether a list of texts can be written.
pub open spec fn texts_fit(items: Seq<Seq<char>>) -> bool {
    items.len() <= u64::MAX && forall|i: int| 0 <= i < items.len() ==> text_fits(#[trigger] items[i])
}

/// A list of texts is read back from its bytes.
pub proof fn lemma_texts_roundtrip(items: Seq<Seq<char>>, rest: Seq<u8>)
    requires
        texts_fit(items),
    ensures
        parse_texts(ser_texts(items) + rest) == Some((items, ser_texts(items).len() as int)),
{
    reveal(parse_texts);
    let ser = |t: Seq<char>| ser_text(t);
    let parse = |b: Seq<u8>| parse_text(b);
    assert forall|i: int| 0 <= i < items.len() implies reads_back(#[trigger] items[i], ser, parse) by {
        assert forall|r: Seq<u8>| #[trigger]
            parse(ser(items[i]) + r) == Some((items[i], ser(items[i]).len() as int)) by {
            lemma_text_roundtrip(items[i], r);
        }
    }
    lemma_list_roundtrip(items, ser, parse, rest);
}

/// The bytes of a pair of texts.
pub open spec fn ser_pair(p: (Seq<char>, Seq<char>)) -> Seq<u8> {
    ser_text(p.0) + ser_text(p.1)
}

/// The pair of texts at the start of `s`.
pub open spec fn parse_pair(s: Seq<u8>) -> Option<((Seq<char>, Seq<char>), int)> {
    match parse_text(s) {
        None => None,
        Some((k, a)) => if 0 <= a <= s.len() {
            match parse_text(s.skip(a)) {
                None => None,
                Some((v, b)) => Some(((k, v), a + b)),
            }
        } else {
            None
        },
    }
}

/// Whether a pair of texts can be written.
pub open spec fn pair_fits(p: (Seq<char>, Seq<char>)) -> bool {
    text_fits(p.0) && text_fits(p.1)
}

/// A pair of texts is read back from its bytes.
pub proof fn lemma_pair_roundtrip(p: (Seq<char>, Seq<char>), rest: Seq<u8>)
    requires
        pair_fits(p),
    ensures
        parse_pair(ser_pair(p) + rest) == Some((p, ser_pair(p).len() as int)),
{
    let all = ser_pair(p) + rest;
    lemma_text_roundtrip(p.0, ser_text(p.1) + rest);
    assert(all =~= ser_text(p.0) + (ser_text(p.1) + rest));
    lemma_skip_concat(ser_text(p.0), ser_text(p.1) + rest);
    lemma_text_roundtrip(p.1, rest);
}

/// The bytes of a list of pairs of texts.
pub open spec fn ser_pairs(items: Seq<(Seq<char>, Seq<char>)>) -> Seq<u8> {
    ser_list(items, |p: (Seq<char>, Seq<char>)| ser_pair(p))
}

/// The list of pairs of texts at the start of `s`.
#[verifier::opaque]
pub open spec fn parse_pairs(s: Seq<u8>) -> Option<(Seq<(Seq<char>, Seq<char>)>, int)> {
    parse_list(s, |b: Seq<u8>| parse_pair(b))
}

/// Whether a list of pairs of texts can be written.
pub open spec fn pairs_fit(items: Seq<(Seq<char>, Seq<char>)>) -> bool {
    items.len() <= u64::MAX && forall|i: int| 0 <= i < items.len() ==> pair_fits(#[trigger] items[i])
}

/// A list of pairs of texts is read back from its bytes.
pub proof fn lemma_pairs_roundtrip(items: Seq<(Seq<char>, Seq<char>)>, rest: Seq<u8>)
    requires
        pairs_fit(items),
    ensures
        parse_pairs(ser_pairs(items) + rest) == Some((items, ser_pairs(items).len() as int)),
{
    reveal(parse_pairs);
    let ser = |p: (Seq<char>, Seq<char>)| ser_pair(p);
    let parse = |b: Seq<u8>| parse_pair(b);
    assert forall|i: int| 0 <= i < items.len() implies reads_back(#[trigger] items[i], ser, parse) by {
        assert forall|r: Seq<u8>| #[trigger]
            parse(ser(items[i]) + r) == Some((items[i], ser(items[i]).len() as int)) by {
            lemma_pair_roundtrip(items[i], r);
        }
    }
    lemma_list_roundtrip(items, ser, parse, rest);
}

/// The bytes of a metadata list.
pub open spec fn ser_meta(m: Pairs) -> Seq<u8> {
    ser_pairs(m)
}

/// The metadata list at the start of `s`: a list of pairs in which no key
/// occurs twice.
#[verifier::opaque]
pub open spec fn parse_meta(s: Seq<u8>) -> Option<(Pairs, int)> {
    match parse_pairs(s) {
        Some((m, k)) => if pair_keys(m).no_duplicates() {
            Some((m, k))
        } else {
            None
        },
        None => None,
    }
}

/// Whether a metadata list can be written and read back.
pub open spec fn meta_valid(m: Pairs) -> bool {
    pairs_fit(m) && pair_keys(m).no_duplicates()
}

/// A metadata list is read back from its bytes.
pub proof fn lemma_meta_roundtrip(m: Pairs, rest: Seq<u8>)
    requires
        meta_valid(m),
    ensures
        parse_meta(ser_meta(m) + rest) == Some((m, ser_meta(m).len() as int)),
{
    reveal(parse_meta);
    lemma_pairs_roundtrip(m, rest);
}

/// The number that stands for a kind.
pub open spec fn kind_tag(k: SymbolKind) -> u64 {
    match k {
        SymbolKind::Class => 0,
        SymbolKind::Function => 1,
        SymbolKind::Method => 2,
        SymbolKind::MethodCall => 3,
        SymbolKind::Interface => 4,
        SymbolKind::Struct => 5,
    }
}

/// The kind that a number stands for.
pub open spec fn kind_of_tag(t: u64) -> Option<SymbolKind> {
    if t == 0 {
        Some(SymbolKind::Class)
    } else if t == 1 {
        Some(SymbolKind::Function)
    } else if t == 2 {
        Some(SymbolKind::Method)
    } else if t == 3 {
        Some(SymbolKind::MethodCall)
    } else if t == 4 {
        Some(SymbolKind::Interface)
    } else if t == 5 {
        Some(SymbolKind::Struct)
    } else {
        None
    }
}

/// The bytes of a kind.
pub open spec fn ser_kind(k: SymbolKind) -> Seq<u8> {
    ser_u64(kind_tag(k))
}

/// The kind at the start of `s`.
pub open spec fn parse_kind(s: Seq<u8>) -> Option<(SymbolKind, int)> {
    match parse_u64(s) {
        Some((t, k)) => match kind_of_tag(t) {
            Some(kind) => Some((kind, k)),
            None => None,
        },
        None => None,
    }
}

/// A kind is read back from its bytes.
pub proof fn lemma_kind_roundtrip(k: SymbolKind, rest: Seq<u8>)
    ensures
        ser_kind(k).len() == 8,
        parse_kind(ser_kind(k) + rest) == Some((k, 8int)),
{
    lemma_u64_roundtrip(kind_tag(k), rest);
}

/// The bytes of a field: name, type, first and last line, modifiers,
/// metadata.
pub open spec fn ser_field(f: FieldView) -> Seq<u8> {
    ser_text(f.name) + (ser_text(f.field_type) + (ser_u32(f.start_line) + (ser_u32(f.end_line) + (
    ser_texts(f.modifiers) + ser_meta(f.metadata)))))
}

/// The field at the start of `s`.
#[verifier::opaque]
pub open spec fn parse_field(s: Seq<u8>) -> Option<(FieldView, int)> {
    match parse_text(s) {
        None => None,
        Some((name, a)) => match parse_text(s.skip(a)) {
            None => None,
            Some((field_type, b)) => match parse_u32(s.skip(a + b)) {
                None => None,
                Some((start_line, c)) => match parse_u32(s.skip(a + b + c)) {
                    None => None,
                    Some((end_line, d)) => match parse_texts(s.skip(a + b + c + d)) {
                        None => None,
                        Some((modifiers, e)) => match parse_meta(s.skip(a + b + c + d + e)) {
                            None => None,
                            Some((metadata, f)) => Some(
                                (
                                    FieldView {
                                        name,
                                        field_type,
                                        start_line,
                                        end_line,
                                        modifiers,
                                        metadata,
                                    },
                                    a + b + c + d + e + f,
                                ),
                            ),
                        },
                    },
                },
            },
        },
    }
}

/// Whether a field can be written and read back.
pub open spec fn field_valid(f: FieldView) -> bool {
    &&& text_fits(f.name)
    &&& text_fits(f.field_type)
    &&& texts_fit(f.modifiers)
    &&& meta_valid(f.metadata)
}

/// A field is read back from its bytes.
pub proof fn lemma_field_roundtrip(v: FieldView, rest: Seq<u8>)
    requires
        field_valid(v),
    ensures
        parse_field(ser_field(v) + rest) == Some((v, ser_field(v).len() as int)),
{
    reveal(parse_field);
    let pa = ser_text(v.name);
    let pb = ser_text(v.field_type);
    let pc = ser_u32(v.start_line);
    let pd = ser_u32(v.end_line);
    let pe = ser_texts(v.modifiers);
    let pf = ser_meta(v.metadata);
    let r5 = pf + rest;
    let r4 = pe + r5;
    let r3 = pd + r4;
    let r2 = pc + r3;
    let r1 = pb + r2;
    let all = ser_field(v) + rest;
    assert(all =~= pa + r1);
    lemma_text_roundtrip(v.name, r1);
    lemma_skip_concat(pa, r1);
    lemma_text_roundtrip(v.field_type, r2);
    assert(all.skip((pa.len() + pb.len()) as int) =~= r2);
    lemma_u32_roundtrip(v.start_line, r3);
    assert(all.skip((pa.len() + pb.len() + pc.len()) as int) =~= r3);
    lemma_u32_roundtrip(v.end_line, r4);
    assert(all.skip((pa.len() + pb.len() + pc.len() + pd.len()) as int) =~= r4);
    lemma_texts_roundtrip(v.modifiers, r5);
    assert(all.skip((pa.len() + pb.len() + pc.len() + pd.len() + pe.len()) as int) =~= r5);
    lemma_meta_roundtrip(v.metadata, rest);
}

/// The bytes of a list of fields.
pub open spec fn ser_fields(items: Seq<FieldView>) -> Seq<u8> {
    ser_list(items, |f: FieldView| ser_field(f))
}

/// The list of fields at the start of `s`.
#[verifier::opaque]
pub open spec fn parse_fields(s: Seq<u8>) -> Option<(Seq<FieldView>, int)> {
    parse_list(s, |b: Seq<u8>| parse_field(b))
}

/// Whether a list of fields can be written and read back.
pub open spec fn fields_valid(items: Seq<FieldView>) -> bool {
    items.len() <= u64::MAX && forall|i: int| 0 <= i < items.len() ==> field_valid(#[trigger] items[i])
}

/// A list of fields is read back from its bytes.
pub proof fn lemma_fields_roundtrip(items: Seq<FieldView>, rest: Seq<u8>)
    requires
        fields_valid(items),
    ensures
        parse_fields(ser_fields(items) + rest) == Some((items, ser_fields(items).len() as int)),
{
    reveal(parse_fields);
    let ser = |f: FieldView| ser_field(f);
    let parse = |b: Seq<u8>| parse_field(b);
    assert forall|i: int| 0 <= i < items.len() implies reads_back(#[trigger] items[i], ser, parse) by {
        assert forall|r: Seq<u8>| #[trigger]
            parse(ser(items[i]) + r) == Some((items[i], ser(items[i]).len() as int)) by {
            lemma_field_roundtrip(items[i], r);
        }
    }
    lemma_list_roundtrip(items, ser, parse, rest);
}

/// The first part of the bytes of a symbol: name, kind, file, the three
/// line numbers, and the snippet.
pub open spec fn ser_symbol_head(v: SymbolView) -> Seq<u8> {
    ser_text(v.name) + (ser_kind(v.kind) + (ser_text(v.file_path) + (ser_u32(v.line) + (ser_u32(
        v.start_line,
    ) + (ser_u32(v.end_line) + ser_text(v.code))))))
}

/// The second part of the bytes of a symbol: parents, package, modifiers,
/// fields, metadata, and subclasses.
pub open spec fn ser_symbol_tail(v: SymbolView) -> Seq<u8> {
    ser_texts(v.parent_classes) + (ser_text(v.package) + (ser_texts(v.modifiers) + (ser_fields(
        v.fields,
    ) + (ser_meta(v.metadata) + ser_texts(v.subclasses)))))
}

/// The bytes of a symbol.
pub open spec fn ser_symbol(v: SymbolView) -> Seq<u8> {
    ser_symbol_head(v) + ser_symbol_tail(v)
}

/// What the first part of a symbol holds.
pub struct SymbolHead {
    pub name: Seq<char>,
    pub kind: SymbolKind,
    pub file_path: Seq<char>,
    pub line: u32,
    pub start_line: u32,
    pub end_line: u32,
    pub code: Seq<char>,
}

/// What the second part of a symbol holds.
pub struct SymbolTail {
    pub parent_classes: Seq<Seq<char>>,
    pub package: Seq<char>,
    pub modifiers: Seq<Seq<char>>,
    pub fields: Seq<FieldView>,
    pub metadata: Pairs,
    pub subclasses: Seq<Seq<char>>,
}

/// The first part of a symbol.
pub open spec fn head_of(v: SymbolView) -> SymbolHead {
    SymbolHead {
        name: v.name,
        kind: v.kind,
        file_path: v.file_path,
        line: v.line,
        start_line: v.start_line,
        end_line: v.end_line,
        code: v.code,
    }
}

/// The second part of a symbol.
pub open spec fn tail_of(v: SymbolView) -> SymbolTail {
    SymbolTail {
        parent_classes: v.parent_classes,
        package: v.package,
        modifiers: v.modifiers,
        fields: v.fields,
        metadata: v.metadata,
        subclasses: v.subclasses,
    }
}

/// The symbol made of its two parts.
pub open spec fn join_symbol(h: SymbolHead, t: SymbolTail) -> SymbolView {
    SymbolView {
        name: h.name,
        kind: h.kind,
        file_path: h.file_path,
        line: h.line,
        start_line: h.start_line,
        end_line: h.end_line,
        code: h.code,
        parent_classes: t.parent_classes,
        package: t.package,
        modifiers: t.modifiers,
        fields: t.fields,
        metadata: t.metadata,
        subclasses: t.subclasses,
    }
}

/// The first part of a symbol at the start of `s`.
#[verifier::opaque]
pub open spec fn parse_symbol_head(s: Seq<u8>) -> Option<(SymbolHead, int)> {
    match parse_text(s) {
        None => None,
        Some((name, a)) => match parse_kind(s.skip(a)) {
            None => None,
            Some((kind, b)) => match parse_text(s.skip(a + b)) {
                None => None,
                Some((file_path, c)) => match parse_u32(s.skip(a + b + c)) {
                    None => None,
                    Some((line, d)) => match parse_u32(s.skip(a + b + c + d)) {
                        None => None,
                        Some((start_line, e)) => match parse_u32(s.skip(a + b + c + d + e)) {
                            None => None,
                            Some((end_line, f)) => match parse_text(s.skip(a + b + c + d + e + f)) {
                                None => None,
                                Some((code, g)) => Some(
                                    (
                                        SymbolHead {
                                            name,
                                            kind,
                                            file_path,
                                            line,
                                            start_line,
                                            end_line,
                                            code,
                                        },
                                        a + b + c + d + e + f + g,
                                    ),
                                ),
                            },
                        },
                    },
                },
            },
        },
    }
}

/// The second part of a symbol at the start of `s`.
#[verifier::opaque]
pub open spec fn parse_symbol_tail(s: Seq<u8>) -> Option<(SymbolTail, int)> {
    match parse_texts(s) {
        None => None,
        Some((parent_classes, a)) => match parse_text(s.skip(a)) {
            None => None,
            Some((package, b)) => match parse_texts(s.skip(a + b)) {
                None => None,
                Some((modifiers, c)) => match parse_fields(s.skip(a + b + c)) {
                    None => None,
                    Some((fields, d)) => match parse_meta(s.skip(a + b + c + d)) {
                        None => None,
                        Some((metadata, e)) => match parse_texts(s.skip(a + b + c + d + e)) {
                            None => None,
                            Some((subclasses, f)) => Some(
                                (
                                    SymbolTail {
                                        parent_classes,
                                        package,
                                        modifiers,
                                        fields,
                                        metadata,
                                        subclasses,
                                    },
                                    a + b + c + d + e + f,
                                ),
                            ),
                        },
                    },
                },
            },
        },
    }
}

/// The symbol at the start of `s`.
#[verifier::opaque]
pub open spec fn parse_symbol(s: Seq<u8>) -> Option<(SymbolView, int)> {
    match parse_symbol_head(s) {
        None => None,
        Some((h, a)) => match parse_symbol_tail(s.skip(a)) {
            None => None,
            Some((t, b)) => Some((join_symbol(h, t), a + b)),
        },
    }
}

/// Whether a symbol can be written and read back.
pub open spec fn symbol_valid(v: SymbolView) -> bool {
    &&& text_fits(v.name)
    &&& text_fits(v.file_path)
    &&& text_fits(v.code)
    &&& texts_fit(v.parent_classes)
    &&& text_fits(v.package)
    &&& texts_fit(v.modifiers)
    &&& fields_valid(v.fields)
    &&& meta_valid(v.metadata)
    &&& texts_fit(v.subclasses)
}

/// The first part of a symbol is read back from its bytes.
pub proof fn lemma_symbol_head_roundtrip(v: SymbolView, rest: Seq<u8>)
    requires
        symbol_valid(v),
    ensures
        parse_symbol_head(ser_symbol_head(v) + rest) == Some(
            (head_of(v), ser_symbol_head(v).len() as int),
        ),
{
    reveal(parse_symbol_head);
    let pa = ser_text(v.name);
    let pb = ser_kind(v.kind);
    let pc = ser_text(v.file_path);
    let pd = ser_u32(v.line);
    let pe = ser_u32(v.start_line);
    let pf = ser_u32(v.end_line);
    let pg = ser_text(v.code);
    let r6 = pg + rest;
    let r5 = pf + r6;
    let r4 = pe + r5;
    let r3 = pd + r4;
    let r2 = pc + r3;
    let r1 = pb + r2;
    let all = ser_symbol_head(v) + rest;
    assert(all =~= pa + r1);
    lemma_text_roundtrip(v.name, r1);
    lemma_skip_concat(pa, r1);
    lemma_kind_roundtrip(v.kind, r2);
    assert(all.skip((pa.len() + pb.len()) as int) =~= r2);
    lemma_text_roundtrip(v.file_path, r3);
    assert(all.skip((pa.len() + pb.len() + pc.len()) as int) =~= r3);
    lemma_u32_roundtrip(v.line, r4);
    assert(all.skip((pa.len() + pb.len() + pc.len() + pd.len()) as int) =~= r4);
    lemma_u32_roundtrip(v.start_line, r5);
    assert(all.skip((pa.len() + pb.len() + pc.len() + pd.len() + pe.len()) as int) =~= r5);
    lemma_u32_roundtrip(v.end_line, r6);
    assert(all.skip((pa.len() + pb.len() + pc.len() + pd.len() + pe.len() + pf.len()) as int) =~= r6);
    lemma_text_roundtrip(v.code, rest);
}

/// The second part of a symbol is read back from its bytes.
pub proof fn lemma_symbol_tail_roundtrip(v: SymbolView, rest: Seq<u8>)
    requires
        symbol_valid(v),
    ensures
        parse_symbol_tail(ser_symbol_tail(v) + rest) == Some(
            (tail_of(v), ser_symbol_tail(v).len() as int),
        ),
{
    reveal(parse_symbol_tail);
    let pa = ser_texts(v.parent_classes);
    let pb = ser_text(v.package);
    let pc = ser_texts(v.modifiers);
    let pd = ser_fields(v.fields);
    let pe = ser_meta(v.metadata);
    let pf = ser_texts(v.subclasses);
    let r5 = pf + rest;
    let r4 = pe + r5;
    let r3 = pd + r4;
    let r2 = pc + r3;
    let r1 = pb + r2;
    let all = ser_symbol_tail(v) + rest;
    assert(all =~= pa + r1);
    lemma_texts_roundtrip(v.parent_classes, r1);
    lemma_skip_concat(pa, r1);
    lemma_text_roundtrip(v.package, r2);
    assert(all.skip((pa.len() + pb.len()) as int) =~= r2);
    lemma_texts_roundtrip(v.modifiers, r3);
    assert(all.skip((pa.len() + pb.len() + pc.len()) as int) =~= r3);
    lemma_fields_roundtrip(v.fields, r4);
    assert(all.skip((pa.len() + pb.len() + pc.len() + pd.len()) as int) =~= r4);
    lemma_meta_roundtrip(v.metadata, r5);
    assert(all.skip((pa.len() + pb.len() + pc.len() + pd.len() + pe.len()) as int) =~= r5);
    lemma_texts_roundtrip(v.subclasses, rest);
}

/// A symbol is read back from its bytes.
pub proof fn lemma_symbol_roundtrip(v: SymbolView, rest: Seq<u8>)
    requires
        symbol_valid(v),
    ensures
        parse_symbol(ser_symbol(v) + rest) == Some((v, ser_symbol(v).len() as int)),
{
    reveal(parse_symbol);
    let h = ser_symbol_head(v);
    let t = ser_symbol_tail(v);
    let all = ser_symbol(v) + rest;
    assert(all =~= h + (t + rest));
    lemma_symbol_head_roundtrip(v, t + rest);
    lemma_skip_concat(h, t + rest);
    lemma_symbol_tail_roundtrip(v, rest);
    crate::symbol::lemma_symbol_view_eq(join_symbol(head_of(v), tail_of(v)), v);
}

/// The bytes of a list of symbols.
pub open spec fn ser_symbols(items: Seq<SymbolView>) -> Seq<u8> {
    ser_list(items, |v: SymbolView| ser_symbol(v))
}

/// The list of symbols at the start of `s`.
#[verifier::opaque]
pub open spec fn parse_symbols(s: Seq<u8>) -> Option<(Seq<SymbolView>, int)> {
    parse_list(s, |b: Seq<u8>| parse_symbol(b))
}

/// Whether a list of symbols can be written and read back.
pub open spec fn symbols_valid(items: Seq<SymbolView>) -> bool {
    items.len() <= u64::MAX && forall|i: int| 0 <= i < items.len() ==> symbol_valid(#[trigger] items[i])
}

/// A list of symbols is read back from its bytes.
pub proof fn lemma_symbols_roundtrip(items: Seq<SymbolView>, rest: Seq<u8>)
    requires
        symbols_valid(items),
    ensures
        parse_symbols(ser_symbols(items) + rest) == Some((items, ser_symbols(items).len() as int)),
{
    reveal(parse_symbols);
    let ser = |v: SymbolView| ser_symbol(v);
    let parse = |b: Seq<u8>| parse_symbol(b);
    assert forall|i: int| 0 <= i < items.len() implies reads_back(#[trigger] items[i], ser, parse) by {
        assert forall|r: Seq<u8>| #[trigger]
            parse(ser(items[i]) + r) == Some((items[i], ser(items[i]).len() as int)) by {
            lemma_symbol_roundtrip(items[i], r);
        }
    }
    lemma_list_roundtrip(items, ser, parse, rest);
}

/// What the index holds of one file.
pub struct FileView {
    pub path: Seq<char>,
    pub mtime: u64,
    pub symbols: Seq<SymbolView>,
}

/// The bytes of a file entry: path, modification time, symbols.
pub open spec fn ser_file(f: FileView) -> Seq<u8> {
    ser_text(f.path) + (ser_u64(f.mtime) + ser_symbols(f.symbols))
}

/// The file entry at the start of `s`.
#[verifier::opaque]
pub open spec fn parse_file(s: Seq<u8>) -> Option<(FileView, int)> {
    match parse_text(s) {
        None => None,
        Some((path, a)) => match parse_u64(s.skip(a)) {
            None => None,
            Some((mtime, b)) => match parse_symbols(s.skip(a + b)) {
                None => None,
                Some((symbols, c)) => Some((FileView { path, mtime, symbols }, a + b + c)),
            },
        },
    }
}

/// Whether a file entry can be written and read back.
pub open spec fn file_valid(f: FileView) -> bool {
    text_fits(f.path) && symbols_valid(f.symbols)
}

/// A file entry is read back from its bytes.
pub proof fn lemma_file_roundtrip(f: FileView, rest: Seq<u8>)
    requires
        file_valid(f),
    ensures
        parse_file(ser_file(f) + rest) == Some((f, ser_file(f).len() as int)),
{
    reveal(parse_file);
    let pa = ser_text(f.path);
    let pb = ser_u64(f.mtime);
    let pc = ser_symbols(f.symbols);
    let r2 = pc + rest;
    let r1 = pb + r2;
    let all = ser_file(f) + rest;
    assert(all =~= pa + r1);
    lemma_text_roundtrip(f.path, r1);
    lemma_skip_concat(pa, r1);
    lemma_u64_roundtrip(f.mtime, r2);
    assert(all.skip((pa.len() + pb.len()) as int) =~= r2);
    lemma_symbols_roundtrip(f.symbols, rest);
}

/// The paths of a list of file entries.
pub open spec fn file_paths(files: Seq<FileView>) -> Seq<Seq<char>> {
    files.map_values(|f: FileView| f.path)
}

/// What an index holds.
pub struct CacheView {
    pub files: Seq<FileView>,
    pub class_map: Pairs,
    pub build_time: Seq<char>,
}

/// The bytes of an index: files, class map, build time.
pub open spec fn ser_cache(c: CacheView) -> Seq<u8> {
    ser_list(c.files, |f: FileView| ser_file(f)) + (ser_meta(c.class_map) + ser_text(c.build_time))
}

/// The index at the start of `s`: its file entries have different paths.
pub open spec fn parse_cache(s: Seq<u8>) -> Option<(CacheView, int)> {
    match parse_list(s, |b: Seq<u8>| parse_file(b)) {
        None => None,
        Some((files, a)) => if !file_paths(files).no_duplicates() {
            None
        } else {
            match parse_meta(s.skip(a)) {
                None => None,
                Some((class_map, b)) => match parse_text(s.skip(a + b)) {
                    None => None,
                    Some((build_time, c)) => Some(
                        (CacheView { files, class_map, build_time }, a + b + c),
                    ),
                },
            }
        },
    }
}

/// Whether an index can be written and read back: no path and no class
/// name occurs twice, and every length fits a number.
pub open spec fn cache_valid(c: CacheView) -> bool {
    &&& c.files.len() <= u64::MAX
    &&& forall|i: int| 0 <= i < c.files.len() ==> file_valid(#[trigger] c.files[i])
    &&& file_paths(c.files).no_duplicates()
    &&& meta_valid(c.class_map)
    &&& text_fits(c.build_time)
}

/// The bytes that stand for an index.
pub open spec fn encoded(c: CacheView) -> Seq<u8> {
    ser_cache(c)
}

/// The index that bytes stand for, where they stand for one: they hold an
/// index and nothing behind it.
pub open spec fn decoded(bytes: Seq<u8>) -> Option<CacheView> {
    match parse_cache(bytes) {
        Some((c, used)) => if used == bytes.len() {
            Some(c)
        } else {
            None
        },
        None => None,
    }
}

/// Round trip: reading what was written of an index gives back the index,
/// part for part.
pub proof fn lemma_cache_roundtrip(c: CacheView)
    requires
        cache_valid(c),
    ensures
        decoded(encoded(c)) == Some(c),
{
    let ser = |f: FileView| ser_file(f);
    let parse = |b: Seq<u8>| parse_file(b);
    let pa = ser_list(c.files, ser);
    let pb = ser_meta(c.class_map);
    let pc = ser_text(c.build_time);
    let all = ser_cache(c);
    let r1 = pb + pc;
    assert forall|i: int| 0 <= i < c.files.len() implies reads_back(#[trigger] c.files[i], ser, parse) by {
        assert forall|r: Seq<u8>| #[trigger]
            parse(ser(c.files[i]) + r) == Some((c.files[i], ser(c.files[i]).len() as int)) by {
            lemma_file_roundtrip(c.files[i], r);
        }
    }
    lemma_list_roundtrip(c.files, ser, parse, r1);
    lemma_skip_concat(pa, r1);
    lemma_meta_roundtrip(c.class_map, pc);
    assert(all.skip((pa.len() + pb.len()) as int) =~= pc);
    assert(pc + Seq::<u8>::empty() =~= pc);
    lemma_text_roundtrip(c.build_time, Seq::empty());
    assert(all.len() == pa.len() + pb.len() + pc.len());
}

} // verus!
