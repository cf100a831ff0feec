//! Decoding one file's metadata into typed values by tag name.

use vstd::prelude::*;
use crate::field_map::FieldMap;
use crate::value::{coerce, serialise_value, TypedView};

verus! {

#[verifier::external_type_specification]
#[verifier::external_body]
pub struct ExExifError(exif::Error);

/// Why a file gave no values.
#[derive(Clone, Copy, Debug, PartialEq, Eq)]
pub enum ExtractionError {
    /// The file could not be read.
    Unreadable,
    /// The bytes hold no metadata container, or it did not decode.
    Decode,
}

/// The fields decoded from a file's bytes, each as its tag name and its
/// rendered text, in the order the decoder gives them; none where the bytes
/// hold no metadata container that decodes.
pub uninterp spec fn decoded_fields(data: Seq<u8>) -> Option<Seq<(Seq<char>, Seq<char>)>>;

pub open spec fn raw_view(f: Seq<(String, String)>) -> Seq<(Seq<char>, Seq<char>)> {
    f.map_values(|p: (String, String)| (p.0@, p.1@))
}

/// The map built by typing the fields in order, a later field overwriting
/// an earlier one of the same tag name.
pub open spec fn field_map_of(fields: Seq<(Seq<char>, Seq<char>)>) -> Map<Seq<char>, TypedView>
    decreases fields.len(),
{
    if fields.len() == 0 {
        Map::empty()
    } else {
        field_map_of(fields.drop_last()).insert(fields.last().0, coerce(fields.last().1))
    }
}

/// What a file's bytes yield: the map of their decoded fields, or nothing.
pub open spec fn extracted(data: Seq<u8>) -> Option<Map<Seq<char>, TypedView>> {
    match decoded_fields(data) {
        Some(f) => Some(field_map_of(f)),
        None => None,
    }
}

/// Relies on exif's `Reader::read_from_container`, which finds the metadata
/// container in an image file's bytes and decodes its fields, on `Tag`'s
/// `Display` for each field's tag name, and on `Value::display_as` for the
/// text each field renders to under its tag. All of it depends on the bytes
/// alone.
#[verifier::external_body]
fn read_fields(data: &[u8]) -> (r: Result<Vec<(String, String)>, exif::Error>)
    ensures
        match r {
            Ok(v) => decoded_fields(data@) == Some(raw_view(v@)),
            Err(_) => decoded_fields(data@) is None,
        },
{
    let exif = exif::Reader::new().read_from_container(&mut std::io::Cursor::new(data))?;
    Ok(exif.fields().map(|f| (f.tag.to_string(), f.value.display_as(f.tag).to_string())).collect())
}

/// Types each field's rendered text and gathers the values by tag name; a
/// later field overwrites an earlier one of the same tag name.
pub fn build_field_map(fields: &Vec<(String, String)>) -> (r: FieldMap)
    ensures
        r.wf(),
        r@ == field_map_of(raw_view(fields@)),
{
    let ghost all = raw_view(fields@);
    let mut map = FieldMap::new();
    let mut i: usize = 0;
    while i < fields.len()
        invariant
            i <= fields.len(),
            all == raw_view(fields@),
            map.wf(),
            map@ == field_map_of(all.take(i as int)),
        decreases fields.len() - i,
    {
        let key = fields[i].0.clone();
        let value = serialise_value(fields[i].1.as_str());
        map.insert(key, value);
        assert(all.take(i + 1).drop_last() =~= all.take(i as int));
        i = i + 1;
    }
    assert(all.take(fields.len() as int) =~= all);
    map
}

/// The typed values of the fields in an image file's metadata container.
pub fn get_exif(data: &[u8]) -> (r: Result<FieldMap, ExtractionError>)
    ensures
        match r {
            Ok(m) => m.wf() && extracted(data@) == Some(m@),
            Err(e) => extracted(data@) is None && e is Decode,
        },
{
    match read_fields(data) {
        Ok(fields) => Ok(build_field_map(&fields)),
        Err(_) => Err(ExtractionError::Decode),
    }
}

/// Where two fields share a tag name, the map holds that name once, with
/// the typed value of the later field, provided no field after it has that
/// name.
pub proof fn lemma_last_field_wins(fields: Seq<(Seq<char>, Seq<char>)>, i: int, j: int)
    requires
        0 <= i < j < fields.len(),
        fields[i].0 == fields[j].0,
        forall|l: int| j < l < fields.len() ==> #[trigger] fields[l].0 != fields[j].0,
    ensures
        field_map_of(fields).contains_key(fields[j].0),
        field_map_of(fields)[fields[j].0] == coerce(fields[j].1),
    decreases fields.len(),
{
    if j < fields.len() - 1 {
        let p = fields.drop_last();
        assert(p[i] == fields[i] && p[j] == fields[j]);
        assert forall|l: int| j < l < p.len() implies #[trigger] p[l].0 != p[j].0 by {
            assert(p[l] == fields[l]);
        }
        lemma_last_field_wins(p, i, j);
        assert(fields.last() == fields[fields.len() - 1]);
    }
}

} // verus!
