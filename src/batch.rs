//! What a batch of files yields: one map for each file that reads and
//! decodes, none for the others.

use vstd::prelude::*;
use crate::extract::{extracted, get_exif, ExtractionError};
use crate::field_map::FieldMap;
use crate::value::TypedView;

verus! {

/// What one file yields: `None` for a file that could not be read, else
/// what its bytes yield.
pub open spec fn file_report(file: Option<Seq<u8>>) -> Option<Map<Seq<char>, TypedView>> {
    match file {
        Some(data) => extracted(data),
        None => None,
    }
}

/// The maps that a batch of files yields, in the order of the files; a file
/// that yields nothing is skipped.
pub open spec fn batch_output(files: Seq<Option<Seq<u8>>>) -> Seq<Map<Seq<char>, TypedView>>
    decreases files.len(),
{
    if files.len() == 0 {
        Seq::empty()
    } else {
        let rest = batch_output(files.drop_last());
        match file_report(files.last()) {
            Some(m) => rest.push(m),
            None => rest,
        }
    }
}

pub open spec fn contents_view(contents: Option<Vec<u8>>) -> Option<Seq<u8>> {
    match contents {
        Some(v) => Some(v@),
        None => None,
    }
}

/// What one file yields, given its contents, or `None` where it could not be
/// read.
pub fn process_file(contents: Option<Vec<u8>>) -> (r: Result<FieldMap, ExtractionError>)
    ensures
        match r {
            Ok(m) => m.wf() && file_report(contents_view(contents)) == Some(m@),
            Err(e) => file_report(contents_view(contents)) is None && (e is Unreadable <==> contents
                is None),
        },
{
    match contents {
        Some(data) => get_exif(data.as_slice()),
        None => Err(ExtractionError::Unreadable),
    }
}

pub open spec fn report_of_ok(file: Option<Seq<u8>>) -> Map<Seq<char>, TypedView> {
    file_report(file)->0
}

/// Where every file yields a map, the batch yields them all, in order.
pub proof fn lemma_batch_all_ok(files: Seq<Option<Seq<u8>>>)
    requires
        forall|i: int| 0 <= i < files.len() ==> (#[trigger] file_report(files[i])) is Some,
    ensures
        batch_output(files) == files.map_values(|f: Option<Seq<u8>>| report_of_ok(f)),
    decreases files.len(),
{
    if files.len() > 0 {
        let p = files.drop_last();
        assert forall|i: int| 0 <= i < p.len() implies (#[trigger] file_report(p[i])) is Some by {
            assert(p[i] == files[i]);
        }
        lemma_batch_all_ok(p);
        assert(file_report(files[files.len() - 1]) is Some);
        assert(batch_output(files) =~= files.map_values(|f: Option<Seq<u8>>| report_of_ok(f)));
    }
}

/// One file that cannot be read or decoded, wherever it stands, costs its
/// own output and no other: a batch of `n` files of which only that one
/// fails yields `n - 1` maps, one for each other file, in order.
pub proof fn lemma_batch_isolation(files: Seq<Option<Seq<u8>>>, k: int)
    requires
        0 <= k < files.len(),
        file_report(files[k]) is None,
        forall|i: int| 0 <= i < files.len() && i != k ==> (#[trigger] file_report(files[i])) is Some,
    ensures
        batch_output(files).len() == files.len() - 1,
        batch_output(files) == files.remove(k).map_values(|f: Option<Seq<u8>>| report_of_ok(f)),
    decreases files.len(),
{
    let p = files.drop_last();
    if k == files.len() - 1 {
        assert(p =~= files.remove(k));
        assert forall|i: int| 0 <= i < p.len() implies (#[trigger] file_report(p[i])) is Some by {
            assert(p[i] == files[i]);
        }
        lemma_batch_all_ok(p);
    } else {
        assert(p[k] == files[k]);
        assert forall|i: int| 0 <= i < p.len() && i != k implies (#[trigger] file_report(
            p[i],
        )) is Some by {
            assert(p[i] == files[i]);
        }
        lemma_batch_isolation(p, k);
        assert(file_report(files[files.len() - 1]) is Some);
        assert(files.remove(k) =~= p.remove(k).push(files.last()));
        assert(batch_output(files) =~= files.remove(k).map_values(
            |f: Option<Seq<u8>>| report_of_ok(f),
        ));
    }
}

/// A map is in a batch's output exactly where some file of the batch
/// yields it.
pub proof fn lemma_batch_member(files: Seq<Option<Seq<u8>>>, m: Map<Seq<char>, TypedView>)
    ensures
        batch_output(files).contains(m) <==> exists|i: int|
            0 <= i < files.len() && #[trigger] file_report(files[i]) == Some(m),
    decreases files.len(),
{
    if files.len() > 0 {
        let p = files.drop_last();
        lemma_batch_member(p, m);
        let out = batch_output(files);
        let rest = batch_output(p);
        if exists|i: int| 0 <= i < p.len() && #[trigger] file_report(p[i]) == Some(m) {
            let i = choose|i: int| 0 <= i < p.len() && #[trigger] file_report(p[i]) == Some(m);
            assert(p[i] == files[i]);
            let j = choose|j: int| 0 <= j < rest.len() && rest[j] == m;
            if file_report(files.last()) is Some {
                assert(out[j] == rest[j]);
            }
            assert(out.contains(m));
        }
        if exists|i: int| 0 <= i < files.len() && #[trigger] file_report(files[i]) == Some(m) {
            let i = choose|i: int| 0 <= i < files.len() && #[trigger] file_report(files[i]) == Some(
                m,
            );
            if i == files.len() - 1 {
                assert(out[out.len() - 1] == m);
            } else {
                assert(p[i] == files[i]);
                let j = choose|j: int| 0 <= j < rest.len() && rest[j] == m;
                if file_report(files.last()) is Some {
                    assert(out[j] == rest[j]);
                }
            }
            assert(out.contains(m));
        }
        if out.contains(m) {
            let j = choose|j: int| 0 <= j < out.len() && out[j] == m;
            if j < rest.len() {
                if file_report(files.last()) is Some {
                    assert(out[j] == rest[j]);
                }
                assert(rest.contains(m));
                let i = choose|i: int| 0 <= i < p.len() && #[trigger] file_report(p[i]) == Some(m);
                assert(p[i] == files[i]);
            } else {
                assert(file_report(files[files.len() - 1]) == Some(m));
            }
        }
    }
}

/// Running a batch over the same set of files in another order yields the
/// same set of maps.
pub proof fn lemma_batch_order_independent(
    files1: Seq<Option<Seq<u8>>>,
    files2: Seq<Option<Seq<u8>>>,
)
    requires
        files1.to_set() == files2.to_set(),
    ensures
        batch_output(files1).to_set() == batch_output(files2).to_set(),
{
    assert forall|m: Map<Seq<char>, TypedView>|
        batch_output(files1).to_set().contains(m) implies batch_output(files2).to_set().contains(
        m,
    ) by {
        lemma_batch_member(files1, m);
        lemma_batch_member(files2, m);
        let i = choose|i: int| 0 <= i < files1.len() && #[trigger] file_report(files1[i]) == Some(m);
        assert(files1.to_set().contains(files1[i]));
        assert(files2.to_set().contains(files1[i]));
    }
    assert forall|m: Map<Seq<char>, TypedView>|
        batch_output(files2).to_set().contains(m) implies batch_output(files1).to_set().contains(
        m,
    ) by {
        lemma_batch_member(files1, m);
        lemma_batch_member(files2, m);
        let i = choose|i: int| 0 <= i < files2.len() && #[trigger] file_report(files2[i]) == Some(m);
        assert(files2.to_set().contains(files2[i]));
        assert(files1.to_set().contains(files2[i]));
    }
    assert(batch_output(files1).to_set() =~= batch_output(files2).to_set());
}

} // verus!
