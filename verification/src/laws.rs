use vstd::prelude::*;
use crate::error::{DocError, ErrModel};
use crate::loader::{areas_wf, docs_wf, load_doc_spec, load_newest_spec, load_result_view, resolve_slot_spec, resolve_slots_spec, DocRoots};
use crate::manifest::{first_ix, lemma_first_ix, parse_slot_spec, parse_slots_spec, SlotModel};
use crate::storage::{join2, lookup_spec, object_path_spec, store_load_spec, FileData, Storage};
use crate::tree::{Document, ParModel, PartModel};

verus! {

/// Loading is a pure function of the storage snapshot: two loads of the same
/// document against unchanged storage return identical documents (or the
/// identical error), down to every byte of every paragraph.
pub proof fn law_load_deterministic(
    fs: Storage,
    roots: DocRoots,
    cr: Seq<char>,
    id: int,
    hr: Seq<char>,
    r1: Result<Document, DocError>,
    r2: Result<Document, DocError>,
)
    requires
        load_result_view(r1) == load_newest_spec(fs, roots, cr, id, hr),
        load_result_view(r2) == load_newest_spec(fs, roots, cr, id, hr),
    ensures
        load_result_view(r1) == load_result_view(r2),
{
}

/// A paragraph manifest line is exactly `shard`, one `/`, then `key`, split
/// at the first `/`; the object it names is read at `content_root/<line>`
/// and nowhere else.
pub proof fn law_paragraph_line_path(
    line: Seq<char>,
    shard: Seq<char>,
    key: Seq<char>,
    cr: Seq<char>,
)
    requires
        parse_slot_spec(line) == Some(SlotModel::Par { shard, key }),
    ensures
        line == join2(shard, key),
        !shard.contains('/'),
        object_path_spec(cr, shard, key) == join2(cr, line),
{
    let i = first_ix(line, '/');
    lemma_first_ix(line, '/');
    assert(shard =~= line.subrange(0, i));
    assert(key =~= line.subrange(i + 1, line.len() as int));
    assert(line =~= join2(shard, key));
    assert(!shard.contains('/')) by {
        assert(forall|k: int| 0 <= k < i ==> line[k] != '/');
        assert(forall|k: int| 0 <= k < shard.len() ==> shard[k] == line[k]);
    }
    assert(object_path_spec(cr, shard, key) =~= join2(cr, line));
}

/// A missing object file is a hard `ParagraphNotFound`: the store never
/// yields a silently empty paragraph, and the slot resolving to it fails
/// with that same error.
pub proof fn law_missing_object(
    fs: Storage,
    roots: DocRoots,
    cr: Seq<char>,
    id: int,
    shard: Seq<char>,
    key: Seq<char>,
    ad: Seq<int>,
    aa: Seq<Seq<char>>,
)
    requires
        docs_wf(roots, ad),
        areas_wf(fs, aa),
        lookup_spec(fs.files@, object_path_spec(cr, shard, key)) is None,
    ensures
        store_load_spec(fs.files@, cr, shard, key) == Err::<Seq<u8>, _>(
            ErrModel::ParagraphNotFound { shard, key },
        ),
        resolve_slot_spec(fs, roots, cr, id, SlotModel::Par { shard, key }, ad, aa) == Err::<
            PartModel,
            _,
        >(ErrModel::ParagraphNotFound { shard, key }),
{
}

/// An empty change log, a missing one, or a file of the wrong shape under
/// the log's path all yield `NonExistentOrEmptyDocument`.
pub proof fn law_empty_or_missing_log(
    fs: Storage,
    roots: DocRoots,
    cr: Seq<char>,
    id: int,
    hr: Seq<char>,
    ad: Seq<int>,
)
    requires
        docs_wf(roots, ad),
        match lookup_spec(fs.files@, join2(hr, "changelog"@)) {
            Some(FileData::Log(log)) => log@.len() == 0,
            Some(_) => true,
            None => true,
        },
    ensures
        load_doc_spec(fs, roots, cr, id, hr, ad) == Err::<crate::tree::DocModel, _>(
            ErrModel::NonExistentOrEmptyDocument { doc_id: id },
        ),
{
}

/// The same, at the public boundary: `load_newest` of a document whose
/// change log is empty or missing fails with `NonExistentOrEmptyDocument`.
pub proof fn law_empty_or_missing_log_newest(
    fs: Storage,
    roots: DocRoots,
    cr: Seq<char>,
    id: int,
    hr: Seq<char>,
)
    requires
        match lookup_spec(fs.files@, join2(hr, "changelog"@)) {
            Some(FileData::Log(log)) => log@.len() == 0,
            Some(_) => true,
            None => true,
        },
    ensures
        load_newest_spec(fs, roots, cr, id, hr) == Err::<crate::tree::DocModel, _>(
            ErrModel::NonExistentOrEmptyDocument { doc_id: id },
        ),
{
    law_empty_or_missing_log(fs, roots, cr, id, hr, seq![id]);
}

/// A reference back into any document already on the active resolution stack
/// fails with `ReferenceCycleDetected` instead of recursing, so a chain such
/// as one document referencing a second that references the first terminates
/// with that error rather than looping.
pub proof fn law_reference_cycle(
    fs: Storage,
    roots: DocRoots,
    cr: Seq<char>,
    id: int,
    dest_doc_id: int,
    dest_id: Seq<char>,
    ad: Seq<int>,
    aa: Seq<Seq<char>>,
)
    requires
        docs_wf(roots, ad),
        areas_wf(fs, aa),
        ad.contains(dest_doc_id),
    ensures
        resolve_slot_spec(
            fs,
            roots,
            cr,
            id,
            SlotModel::Ref { dest_doc_id, dest_id },
            ad,
            aa,
        ) == Err::<PartModel, _>(ErrModel::ReferenceCycleDetected { dest_doc_id }),
{
}

/// A parsed manifest keeps the file's line order: slot `k` is exactly what
/// line `k` parses to, one slot per line.
pub proof fn law_manifest_keeps_line_order(lines: Seq<String>, i: int)
    requires
        0 <= i <= lines.len(),
        parse_slots_spec(lines, i) is Ok,
    ensures
        ({
            let slots = parse_slots_spec(lines, i)->Ok_0;
            &&& slots.len() == lines.len() - i
            &&& forall|k: int|
                i <= k < lines.len() ==> Some(slots[k - i]) == parse_slot_spec(
                    #[trigger] lines[k]@,
                )
        }),
    decreases lines.len() - i,
{
    if i < lines.len() {
        law_manifest_keeps_line_order(lines, i + 1);
        let slots = parse_slots_spec(lines, i)->Ok_0;
        let rest = parse_slots_spec(lines, i + 1)->Ok_0;
        assert forall|k: int|
            i <= k < lines.len() implies Some(slots[k - i]) == parse_slot_spec(
            #[trigger] lines[k]@,
        ) by {
            if k > i {
                assert(slots[k - i] == rest[k - (i + 1)]);
            }
        }
    }
}

/// The part a paragraph slot resolves to: its slot id is the shard, its hash
/// the key, its content exactly the stored bytes.
pub open spec fn par_part_of(fs: Storage, cr: Seq<char>, slot: SlotModel) -> PartModel {
    match slot {
        SlotModel::Par { shard, key } => PartModel::Par(
            ParModel {
                id: shard,
                hash: key,
                content: match store_load_spec(fs.files@, cr, shard, key) {
                    Ok(b) => b,
                    Err(_) => Seq::empty(),
                },
            },
        ),
        _ => PartModel::Par(ParModel { id: Seq::empty(), hash: Seq::empty(), content: Seq::empty() }),
    }
}

/// Did the store load for a paragraph slot succeed?
pub open spec fn slot_store_ok(fs: Storage, cr: Seq<char>, slot: SlotModel) -> bool {
    match slot {
        SlotModel::Par { shard, key } => store_load_spec(fs.files@, cr, shard, key) is Ok,
        _ => false,
    }
}

/// For a manifest of paragraph slots, a successful load returns one
/// paragraph per slot, in exactly the manifest's line order, each carrying
/// the bytes the store holds for its shard and key.
pub proof fn law_flat_manifest_order(
    fs: Storage,
    roots: DocRoots,
    cr: Seq<char>,
    id: int,
    slots: Seq<SlotModel>,
    j: int,
    ad: Seq<int>,
    aa: Seq<Seq<char>>,
)
    requires
        docs_wf(roots, ad),
        areas_wf(fs, aa),
        0 <= j <= slots.len(),
        forall|k: int| 0 <= k < slots.len() ==> #[trigger] slots[k] is Par,
        resolve_slots_spec(fs, roots, cr, id, slots, j, ad, aa) is Ok,
    ensures
        ({
            let parts = resolve_slots_spec(fs, roots, cr, id, slots, j, ad, aa)->Ok_0;
            &&& parts.len() == slots.len() - j
            &&& forall|k: int|
                j <= k < slots.len() ==> parts[k - j] == par_part_of(fs, cr, #[trigger] slots[k])
            &&& forall|k: int| j <= k < slots.len() ==> slot_store_ok(fs, cr, #[trigger] slots[k])
        }),
    decreases slots.len() - j,
{
    if j < slots.len() {
        let parts = resolve_slots_spec(fs, roots, cr, id, slots, j, ad, aa)->Ok_0;
        law_flat_manifest_order(fs, roots, cr, id, slots, j + 1, ad, aa);
        let rest = resolve_slots_spec(fs, roots, cr, id, slots, j + 1, ad, aa)->Ok_0;
        let part = resolve_slot_spec(fs, roots, cr, id, slots[j], ad, aa)->Ok_0;
        assert(parts == seq![part] + rest);
        assert(part == par_part_of(fs, cr, slots[j]));
        assert forall|k: int|
            j <= k < slots.len() implies parts[k - j] == par_part_of(
            fs,
            cr,
            #[trigger] slots[k],
        ) by {
            if k > j {
                assert(parts[k - j] == rest[k - (j + 1)]);
            }
        }
    }
}

/// The order law at the public boundary: for a valid flat fixture — a log
/// naming version (maj, min), a manifest whose lines all parse to paragraph
/// slots, and a successful load — `load_newest` returns one paragraph per
/// manifest line, in exactly the manifest's line order, each carrying the
/// stored bytes for that line's shard and key.
pub proof fn law_newest_flat_document_order(
    fs: Storage,
    roots: DocRoots,
    cr: Seq<char>,
    id: int,
    hr: Seq<char>,
    log: Vec<crate::changelog::LogRecord>,
    maj: int,
    min: int,
    lines: Vec<String>,
    slots: Seq<SlotModel>,
)
    requires
        lookup_spec(fs.files@, join2(hr, "changelog"@)) == Some(FileData::Log(log)),
        crate::changelog::latest_version_spec(log@, id) == Ok::<_, ErrModel>((maj, min)),
        lookup_spec(
            fs.files@,
            join2(join2(hr, crate::numtext::dec_int(maj)), crate::numtext::dec_int(min)),
        ) == Some(FileData::Text(lines)),
        parse_slots_spec(lines@, 0) == Ok::<_, int>(slots),
        forall|k: int| 0 <= k < slots.len() ==> #[trigger] slots[k] is Par,
        load_newest_spec(fs, roots, cr, id, hr) is Ok,
    ensures
        ({
            let doc = load_newest_spec(fs, roots, cr, id, hr)->Ok_0;
            &&& doc.id == id
            &&& doc.version == (maj, min)
            &&& doc.pars.len() == lines@.len()
            &&& forall|k: int|
                0 <= k < lines@.len() ==> Some(#[trigger] slots[k]) == parse_slot_spec(lines@[k]@)
            &&& forall|k: int|
                0 <= k < lines@.len() ==> #[trigger] doc.pars[k] == par_part_of(fs, cr, slots[k])
        }),
{
    let ad = seq![id];
    let aa = Seq::<Seq<char>>::empty();
    assert(docs_wf(roots, ad));
    assert(areas_wf(fs, aa));
    law_manifest_keeps_line_order(lines@, 0);
    law_flat_manifest_order(fs, roots, cr, id, slots, 0, ad, aa);
}

/// Deduplication is sound: two manifest slots naming the same shard and key
/// resolve to the same part, byte-identical content included.
pub proof fn law_dedup_same_key(
    fs: Storage,
    roots: DocRoots,
    cr: Seq<char>,
    id: int,
    slots: Seq<SlotModel>,
    ad: Seq<int>,
    aa: Seq<Seq<char>>,
    k1: int,
    k2: int,
)
    requires
        docs_wf(roots, ad),
        areas_wf(fs, aa),
        forall|k: int| 0 <= k < slots.len() ==> #[trigger] slots[k] is Par,
        resolve_slots_spec(fs, roots, cr, id, slots, 0, ad, aa) is Ok,
        0 <= k1 < slots.len(),
        0 <= k2 < slots.len(),
        slots[k1] == slots[k2],
    ensures
        ({
            let parts = resolve_slots_spec(fs, roots, cr, id, slots, 0, ad, aa)->Ok_0;
            parts[k1] == parts[k2]
        }),
{
    law_flat_manifest_order(fs, roots, cr, id, slots, 0, ad, aa);
}

} // verus!
