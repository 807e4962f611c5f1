//! Decoding of a form-encoded request body into named fields.
//!
//! A body is a run of pieces with `&` between them. A piece with a `=` in it
//! gives a name and a value, which the `url` crate decodes; a piece without
//! one is malformed and is dropped. Where a name comes more than once, its
//! last value stands.

use vstd::prelude::*;
use vstd::hash_map::StringHashMap;
use vstd::slice::slice_subrange;
use crate::pairs::{pairs_map, pairs_view, Pair};
use crate::text::{lemma_run_len_is, split};

verus! {

/// The byte that separates the pieces of a form-encoded body: `&`.
pub const PIECE_SEPARATOR: u8 = 38;

/// The byte that separates a name from its value: `=`.
pub const VALUE_SEPARATOR: u8 = 61;

/// The name and value pairs that `url::form_urlencoded::parse` reads from
/// `input`, with `+` and percent escapes decoded.
pub uninterp spec fn form_pairs(input: Seq<u8>) -> Seq<(Seq<char>, Seq<char>)>;

/// The character content of each value of `fields`.
pub open spec fn fields_view(fields: Map<Seq<char>, String>) -> Map<Seq<char>, Seq<char>> {
    fields.map_values(|s: String| s@)
}

/// The pairs that one piece decodes to: none where the piece is malformed,
/// which is where it holds no value separator.
pub open spec fn piece_pairs(piece: Seq<u8>) -> Seq<Pair> {
    if piece.contains(VALUE_SEPARATOR) {
        form_pairs(piece)
    } else {
        Seq::empty()
    }
}

/// The pairs that `pieces` decode to, piece after piece.
pub open spec fn pieces_pairs(pieces: Seq<Seq<u8>>) -> Seq<Pair> {
    pieces.map_values(|piece: Seq<u8>| piece_pairs(piece)).flatten()
}

/// The pairs that a form-encoded body decodes to, in order.
pub open spec fn decoded_pairs(body: Seq<u8>) -> Seq<Pair> {
    pieces_pairs(split(body, PIECE_SEPARATOR))
}

/// The fields that a form-encoded body decodes to.
pub open spec fn decoded_fields(body: Seq<u8>) -> Map<Seq<char>, Seq<char>> {
    pairs_map(decoded_pairs(body))
}

/// One more piece adds its pairs after those of the pieces before it.
pub proof fn lemma_pieces_pairs_push(pieces: Seq<Seq<u8>>, piece: Seq<u8>)
    ensures
        pieces_pairs(pieces.push(piece)) == pieces_pairs(pieces) + piece_pairs(piece),
{
    let each = |piece: Seq<u8>| piece_pairs(piece);
    assert(pieces.push(piece).map_values(each) =~= pieces.map_values(each).push(piece_pairs(piece)));
    pieces.map_values(each).lemma_flatten_push(piece_pairs(piece));
}

/// A piece without a value separator adds nothing to what came before it.
pub proof fn lemma_malformed_piece_is_dropped(pieces: Seq<Seq<u8>>, piece: Seq<u8>)
    requires
        !piece.contains(VALUE_SEPARATOR),
    ensures
        pieces_pairs(pieces.push(piece)) == pieces_pairs(pieces),
{
    lemma_pieces_pairs_push(pieces, piece);
}

/// An empty body has no fields.
pub proof fn lemma_empty_body_has_no_fields()
    ensures
        decoded_fields(Seq::empty()) == Map::<Seq<char>, Seq<char>>::empty(),
{
    let body = Seq::<u8>::empty();
    assert(split(body, PIECE_SEPARATOR) =~= Seq::<Seq<u8>>::empty().push(body));
    lemma_malformed_piece_is_dropped(Seq::empty(), body);
    assert(pieces_pairs(Seq::empty()) =~= Seq::<Pair>::empty());
}

/// Calls `url::form_urlencoded::parse` on `input` and collects the pairs it
/// yields as owned strings. The contract only names what the call returns.
#[verifier::external_body]
fn parse_form(input: &[u8]) -> (pairs: Vec<(String, String)>)
    ensures
        pairs_view(pairs@) == form_pairs(input@),
{
    url::form_urlencoded::parse(input).into_owned().collect()
}

/// Whether `bytes` holds `needle`.
fn holds(bytes: &[u8], needle: u8) -> (yes: bool)
    ensures
        yes == bytes@.contains(needle),
{
    let mut i: usize = 0;
    while i < bytes.len()
        invariant
            i <= bytes.len(),
            forall|j: int| 0 <= j < i ==> bytes@[j] != needle,
        decreases bytes.len() - i,
    {
        if bytes[i] == needle {
            return true;
        }
        i += 1;
    }
    false
}

/// Decodes one piece: through the `url` crate where the piece is well formed,
/// to nothing where it is not.
fn decode_piece(piece: &[u8]) -> (pairs: Vec<(String, String)>)
    ensures
        pairs_view(pairs@) == piece_pairs(piece@),
{
    if holds(piece, VALUE_SEPARATOR) {
        parse_form(piece)
    } else {
        let pairs: Vec<(String, String)> = Vec::new();
        assert(pairs_view(pairs@) =~= Seq::empty());
        pairs
    }
}

/// Collects `pairs` into a map. Where a name occurs more than once, the last
/// occurrence wins.
pub fn pairs_to_hashmap(pairs: Vec<(String, String)>) -> (map: StringHashMap<String>)
    ensures
        fields_view(map@) == pairs_map(pairs_view(pairs@)),
{
    let mut map: StringHashMap<String> = StringHashMap::new();
    let mut i: usize = 0;
    proof {
        assert(pairs_view(pairs@).take(0) =~= Seq::empty());
        assert(fields_view(map@) =~= Map::empty());
    }
    while i < pairs.len()
        invariant
            i <= pairs.len(),
            fields_view(map@) == pairs_map(pairs_view(pairs@).take(i as int)),
        decreases pairs.len() - i,
    {
        let ghost before = map@;
        let name = pairs[i].0.clone();
        let value = pairs[i].1.clone();
        map.insert(name, value);
        proof {
            let all = pairs_view(pairs@);
            assert(all.take(i + 1).drop_last() =~= all.take(i as int));
            assert(all.take(i + 1).last() == (name@, value@));
            assert(fields_view(map@) =~= fields_view(before).insert(name@, value@));
        }
        i += 1;
    }
    proof {
        assert(pairs_view(pairs@).take(i as int) =~= pairs_view(pairs@));
    }
    map
}

/// Decodes a form-encoded body into its name and value pairs, in order.
///
/// The body is cut at each `&`. A piece that holds no `=` is dropped; every
/// other piece is decoded by the `url` crate.
pub fn decode_pairs(body: &[u8]) -> (pairs: Vec<(String, String)>)
    ensures
        pairs_view(pairs@) == decoded_pairs(body@),
{
    let mut pairs: Vec<(String, String)> = Vec::new();
    let mut start: usize = 0;
    let mut i: usize = 0;
    let ghost mut done: Seq<Seq<u8>> = Seq::empty();
    proof {
        assert(body@.skip(0) =~= body@);
        assert(done + split(body@, PIECE_SEPARATOR) =~= split(body@, PIECE_SEPARATOR));
        assert(pairs_view(pairs@) =~= pieces_pairs(done));
    }
    while i < body.len()
        invariant
            start <= i <= body.len(),
            forall|j: int| start <= j < i ==> body@[j] != PIECE_SEPARATOR,
            split(body@, PIECE_SEPARATOR) == done + split(body@.skip(start as int), PIECE_SEPARATOR),
            pairs_view(pairs@) == pieces_pairs(done),
        decreases body.len() - i,
    {
        if body[i] == PIECE_SEPARATOR {
            let piece = slice_subrange(body, start, i);
            let ghost before = pairs@;
            let mut found = decode_piece(piece);
            pairs.append(&mut found);
            proof {
                let rest = body@.skip(start as int);
                assert forall|j: int| 0 <= j < i - start implies rest[j] != PIECE_SEPARATOR by {
                    assert(rest[j] == body@[start + j]);
                }
                lemma_run_len_is(rest, PIECE_SEPARATOR, i - start);
                assert(rest.take(i - start) =~= piece@);
                assert(rest.skip(i - start + 1) =~= body@.skip(i + 1));
                assert(done + (seq![piece@] + split(body@.skip(i + 1), PIECE_SEPARATOR))
                    =~= done.push(piece@) + split(body@.skip(i + 1), PIECE_SEPARATOR));
                assert(pairs_view(pairs@) =~= pairs_view(before) + piece_pairs(piece@));
                lemma_pieces_pairs_push(done, piece@);
                done = done.push(piece@);
            }
            start = i + 1;
        }
        i += 1;
    }
    let piece = slice_subrange(body, start, i);
    let ghost before = pairs@;
    let mut found = decode_piece(piece);
    pairs.append(&mut found);
    proof {
        let rest = body@.skip(start as int);
        assert forall|j: int| 0 <= j < rest.len() implies rest[j] != PIECE_SEPARATOR by {
            assert(rest[j] == body@[start + j]);
        }
        lemma_run_len_is(rest, PIECE_SEPARATOR, rest.len() as int);
        assert(rest =~= piece@);
        assert(done + seq![piece@] =~= done.push(piece@));
        assert(pairs_view(pairs@) =~= pairs_view(before) + piece_pairs(piece@));
        lemma_pieces_pairs_push(done, piece@);
    }
    pairs
}

/// Decodes a form-encoded body into its fields. An empty body has none.
pub fn decode(body: &[u8]) -> (fields: StringHashMap<String>)
    ensures
        fields_view(fields@) == decoded_fields(body@),
{
    pairs_to_hashmap(decode_pairs(body))
}

} // verus!
