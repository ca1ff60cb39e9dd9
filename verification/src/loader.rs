use vstd::prelude::*;
use vstd::set_lib::lemma_len_subset;
use crate::changelog::{latest_version_spec, resolve_latest_version};
use crate::error::{err_view, DocError, ErrModel};
use crate::manifest::{parse_slots_from, parse_slots_spec, slot_view, ManifestSlot, SlotModel};
use crate::numtext::{dec_int, i32_to_dec};
use crate::storage::{join2, lookup_spec, object_path_spec, path_join, store_load_spec, str_eq, FileData, Storage};
use crate::tree::{doc_view, Area, find_in_parts, find_target_in_parts, parts_view, part_view, AreaModel, DocModel, DocPart, DocParagraph, Document, FoundTarget, ParModel, PartModel, RefModel, Reference, TargetModel};

verus! {

/// Where each document's change log and manifests live: the loader consults
/// this table to find the history root of a reference's target document.
#[derive(Debug, Clone, PartialEq, Eq)]
pub struct DocRoots {
    pub entries: Vec<(i32, String)>,
}

/// First history root registered for `id`, if any.
pub open spec fn root_of_spec(entries: Seq<(i32, String)>, id: int) -> Option<Seq<char>>
    decreases entries.len(),
{
    if entries.len() == 0 {
        None
    } else if entries[0].0 as int == id {
        Some(entries[0].1@)
    } else {
        root_of_spec(entries.drop_first(), id)
    }
}

proof fn lemma_root_of_skip(entries: Seq<(i32, String)>, id: int, i: int)
    requires
        0 <= i <= entries.len(),
        forall|k: int| 0 <= k < i ==> entries[k].0 as int != id,
    ensures
        root_of_spec(entries, id) == root_of_spec(
            entries.subrange(i, entries.len() as int),
            id,
        ),
    decreases i,
{
    if i > 0 {
        lemma_root_of_skip(entries, id, i - 1);
        let tail = entries.subrange(i - 1, entries.len() as int);
        assert(tail[0] == entries[i - 1]);
        assert(tail.drop_first() =~= entries.subrange(i, entries.len() as int));
    } else {
        assert(entries.subrange(0, entries.len() as int) =~= entries);
    }
}

/// A resolvable id occurs among the registered ids.
proof fn lemma_root_of_member(entries: Seq<(i32, String)>, id: int)
    requires
        root_of_spec(entries, id) is Some,
    ensures
        entries.map_values(|e: (i32, String)| e.0 as int).contains(id),
    decreases entries.len(),
{
    let ids = entries.map_values(|e: (i32, String)| e.0 as int);
    if entries.len() > 0 {
        if entries[0].0 as int == id {
            assert(ids[0] == id);
        } else {
            lemma_root_of_member(entries.drop_first(), id);
            let tids = entries.drop_first().map_values(|e: (i32, String)| e.0 as int);
            let w = choose|k: int| 0 <= k < tids.len() && tids[k] == id;
            assert(ids[w + 1] == id);
        }
    }
}

/// A path that a lookup finds occurs among the stored paths.
proof fn lemma_lookup_member(files: Seq<(String, FileData)>, path: Seq<char>)
    requires
        lookup_spec(files, path) is Some,
    ensures
        files.map_values(|f: (String, FileData)| f.0@).contains(path),
    decreases files.len(),
{
    let paths = files.map_values(|f: (String, FileData)| f.0@);
    if files.len() > 0 {
        if files[0].0@ == path {
            assert(paths[0] == path);
        } else {
            lemma_lookup_member(files.drop_first(), path);
            let tpaths = files.drop_first().map_values(|f: (String, FileData)| f.0@);
            let w = choose|k: int| 0 <= k < tpaths.len() && tpaths[k] == path;
            assert(paths[w + 1] == path);
        }
    }
}

/// A duplicate-free sequence whose members all occur in `pool` is no longer
/// than `pool`.
proof fn lemma_bounded_distinct<A>(xs: Seq<A>, pool: Seq<A>)
    requires
        xs.no_duplicates(),
        forall|k: int| 0 <= k < xs.len() ==> pool.contains(#[trigger] xs[k]),
    ensures
        xs.len() <= pool.len(),
{
    broadcast use vstd::seq_lib::group_seq_properties;

    xs.unique_seq_to_set();
    pool.lemma_cardinality_of_set();
    assert forall|x: A| xs.to_set().contains(x) implies pool.to_set().contains(x) by {
        assert(xs.contains(x));
        let k = choose|k: int| 0 <= k < xs.len() && xs[k] == x;
        assert(pool.contains(xs[k]));
    }
    lemma_len_subset(xs.to_set(), pool.to_set());
}

/// The active document stack: the document under load first, then each
/// document entered through a reference, all distinct, each later one
/// registered in the roots table.
pub open spec fn docs_wf(roots: DocRoots, ad: Seq<int>) -> bool {
    &&& ad.len() >= 1
    &&& ad.no_duplicates()
    &&& forall|k: int| 1 <= k < ad.len() ==> root_of_spec(roots.entries@, #[trigger] ad[k]) is Some
}

/// The active area-listing stack: distinct stored paths.
pub open spec fn areas_wf(fs: Storage, aa: Seq<Seq<char>>) -> bool {
    &&& aa.no_duplicates()
    &&& forall|k: int| 0 <= k < aa.len() ==> lookup_spec(fs.files@, #[trigger] aa[k]) is Some
}

/// Documents that can still be entered before every registered root is on
/// the stack: the driving termination measure for reference resolution.
pub open spec fn dm(roots: DocRoots, ad: Seq<int>) -> int {
    roots.entries@.len() + 2 - ad.len()
}

/// Stored files that can still be opened as area listings on this branch.
pub open spec fn am(fs: Storage, aa: Seq<Seq<char>>) -> int {
    fs.files@.len() - aa.len()
}

proof fn lemma_docs_wf_bound(roots: DocRoots, ad: Seq<int>)
    requires
        docs_wf(roots, ad),
    ensures
        ad.len() <= roots.entries@.len() + 1,
{
    let tail = ad.drop_first();
    let pool = roots.entries@.map_values(|e: (i32, String)| e.0 as int);
    assert(tail.no_duplicates()) by {
        assert forall|i: int, j: int|
            0 <= i < j < tail.len() implies tail[i] != tail[j] by {
            assert(tail[i] == ad[i + 1]);
            assert(tail[j] == ad[j + 1]);
        }
    }
    assert forall|k: int| 0 <= k < tail.len() implies pool.contains(#[trigger] tail[k]) by {
        assert(tail[k] == ad[k + 1]);
        lemma_root_of_member(roots.entries@, ad[k + 1]);
    }
    lemma_bounded_distinct(tail, pool);
}

proof fn lemma_areas_wf_bound(fs: Storage, aa: Seq<Seq<char>>)
    requires
        areas_wf(fs, aa),
    ensures
        aa.len() <= fs.files@.len(),
{
    let pool = fs.files@.map_values(|f: (String, FileData)| f.0@);
    assert forall|k: int| 0 <= k < aa.len() implies pool.contains(#[trigger] aa[k]) by {
        lemma_lookup_member(fs.files@, aa[k]);
    }
    lemma_bounded_distinct(aa, pool);
}

/// What loading the newest version of document `id`, whose files live under
/// `hr`, returns: its change log names the version, the manifest for that
/// version lists the slots, and every slot resolves in order.
pub open spec fn load_doc_spec(
    fs: Storage,
    roots: DocRoots,
    cr: Seq<char>,
    id: int,
    hr: Seq<char>,
    ad: Seq<int>,
) -> Result<DocModel, ErrModel>
    decreases dm(roots, ad), fs.files@.len() + 2, 0int, 0int,
        when docs_wf(roots, ad)
{
    match lookup_spec(fs.files@, join2(hr, "changelog"@)) {
        Some(FileData::Log(log)) => match latest_version_spec(log@, id) {
            Err(e) => Err(e),
            Ok((maj, min)) => load_at_version_spec(fs, roots, cr, id, hr, maj, min, ad),
        },
        _ => Err(ErrModel::NonExistentOrEmptyDocument { doc_id: id }),
    }
}

/// Loading one explicit version of document `id`: the manifest stored at
/// `hr/major/minor` names the slots; each resolves in order, fail-fast.
pub open spec fn load_at_version_spec(
    fs: Storage,
    roots: DocRoots,
    cr: Seq<char>,
    id: int,
    hr: Seq<char>,
    maj: int,
    min: int,
    ad: Seq<int>,
) -> Result<DocModel, ErrModel>
    decreases dm(roots, ad), fs.files@.len() + 1, 0int, 0int,
        when docs_wf(roots, ad)
{
    match lookup_spec(fs.files@, join2(join2(hr, dec_int(maj)), dec_int(min))) {
        Some(FileData::Text(lines)) => match parse_slots_spec(lines@, 0) {
            Err(j) => Err(ErrModel::MalformedManifestLine { doc_id: id, line: j }),
            Ok(slots) => match resolve_slots_spec(fs, roots, cr, id, slots, 0, ad, Seq::empty()) {
                Err(e) => Err(e),
                Ok(parts) => Ok(DocModel { id, version: (maj, min), pars: parts }),
            },
        },
        _ => Err(ErrModel::VersionNotFound { doc_id: id, major: maj, minor: min }),
    }
}

/// Every slot from `j` on, resolved in order.
pub open spec fn resolve_slots_spec(
    fs: Storage,
    roots: DocRoots,
    cr: Seq<char>,
    id: int,
    slots: Seq<SlotModel>,
    j: int,
    ad: Seq<int>,
    aa: Seq<Seq<char>>,
) -> Result<Seq<PartModel>, ErrModel>
    decreases dm(roots, ad), am(fs, aa), slots.len() - j, 1int,
        when docs_wf(roots, ad) && areas_wf(fs, aa)
{
    if j < 0 || j >= slots.len() {
        Ok(Seq::empty())
    } else {
        match resolve_slot_spec(fs, roots, cr, id, slots[j], ad, aa) {
            Err(e) => Err(e),
            Ok(part) => match resolve_slots_spec(fs, roots, cr, id, slots, j + 1, ad, aa) {
                Err(e) => Err(e),
                Ok(rest) => Ok(seq![part] + rest),
            },
        }
    }
}

/// One slot, resolved to a materialized part:
/// - a paragraph slot loads its bytes from the content store;
/// - an area slot opens its listing object, guarded against listing cycles,
///   and resolves each child slot in order;
/// - a reference slot, guarded against document cycles, loads the newest
///   version of the target document and locates the destination in it.
pub open spec fn resolve_slot_spec(
    fs: Storage,
    roots: DocRoots,
    cr: Seq<char>,
    id: int,
    slot: SlotModel,
    ad: Seq<int>,
    aa: Seq<Seq<char>>,
) -> Result<PartModel, ErrModel>
    decreases dm(roots, ad), am(fs, aa), 0int, 0int,
        when docs_wf(roots, ad) && areas_wf(fs, aa)
        via resolve_slot_spec_dec
{
    match slot {
        SlotModel::Par { shard, key } => match store_load_spec(fs.files@, cr, shard, key) {
            Err(e) => Err(e),
            Ok(bytes) => Ok(PartModel::Par(ParModel { id: shard, hash: key, content: bytes })),
        },
        SlotModel::Area { name, shard, key } => {
            let path = object_path_spec(cr, shard, key);
            if aa.contains(path) {
                Err(ErrModel::ReferenceCycleDetected { dest_doc_id: id })
            } else {
                match lookup_spec(fs.files@, path) {
                    None => Err(ErrModel::ParagraphNotFound { shard, key }),
                    Some(FileData::Text(lines)) => match parse_slots_spec(lines@, 0) {
                        Err(j) => Err(ErrModel::MalformedManifestLine { doc_id: id, line: j }),
                        Ok(cslots) => match resolve_slots_spec(
                            fs,
                            roots,
                            cr,
                            id,
                            cslots,
                            0,
                            ad,
                            aa.push(path),
                        ) {
                            Err(e) => Err(e),
                            Ok(parts) => Ok(PartModel::Area(AreaModel { name, parts })),
                        },
                    },
                    Some(_) => Err(ErrModel::CorruptParagraph { shard, key }),
                }
            }
        },
        SlotModel::Ref { dest_doc_id, dest_id } => {
            if ad.contains(dest_doc_id) {
                Err(ErrModel::ReferenceCycleDetected { dest_doc_id })
            } else {
                match root_of_spec(roots.entries@, dest_doc_id) {
                    None => Err(ErrModel::NonExistentOrEmptyDocument { doc_id: dest_doc_id }),
                    Some(hr2) => match load_doc_spec(
                        fs,
                        roots,
                        cr,
                        dest_doc_id,
                        hr2,
                        ad.push(dest_doc_id),
                    ) {
                        Err(e) => Err(e),
                        Ok(doc) => match find_in_parts(doc.pars, dest_id) {
                            None => Err(
                                ErrModel::ReferenceTargetNotFound { dest_doc_id, dest_id },
                            ),
                            Some(TargetModel::Par(pm)) => Ok(
                                PartModel::Reference(
                                    RefModel::Par { dest_id, dest_doc_id, par: pm },
                                ),
                            ),
                            Some(TargetModel::Area(am_)) => Ok(
                                PartModel::Reference(
                                    RefModel::Area {
                                        name: am_.name,
                                        dest_doc_id,
                                        area: am_,
                                    },
                                ),
                            ),
                        },
                    },
                }
            }
        },
    }
}

#[via_fn]
proof fn resolve_slot_spec_dec(
    fs: Storage,
    roots: DocRoots,
    cr: Seq<char>,
    id: int,
    slot: SlotModel,
    ad: Seq<int>,
    aa: Seq<Seq<char>>,
) {
    lemma_docs_wf_bound(roots, ad);
    lemma_areas_wf_bound(fs, aa);
    match slot {
        SlotModel::Area { name, shard, key } => {
            let path = object_path_spec(cr, shard, key);
            if !aa.contains(path) && lookup_spec(fs.files@, path) is Some {
                let aa2 = aa.push(path);
                assert(aa2.no_duplicates()) by {
                    broadcast use vstd::seq_lib::group_seq_properties;

                }
                assert(forall|k: int|
                    0 <= k < aa2.len() ==> lookup_spec(fs.files@, #[trigger] aa2[k]) is Some) by {
                    assert(forall|k: int| 0 <= k < aa.len() ==> aa2[k] == aa[k]);
                }
                lemma_areas_wf_bound(fs, aa2);
            }
        },
        SlotModel::Ref { dest_doc_id, dest_id } => {
            if !ad.contains(dest_doc_id) && root_of_spec(roots.entries@, dest_doc_id) is Some {
                let ad2 = ad.push(dest_doc_id);
                assert(ad2.no_duplicates()) by {
                    broadcast use vstd::seq_lib::group_seq_properties;

                }
                assert(forall|k: int|
                    1 <= k < ad2.len() ==> root_of_spec(roots.entries@, #[trigger] ad2[k]) is Some)
                    by {
                    assert(forall|k: int| 0 <= k < ad.len() ==> ad2[k] == ad[k]);
                }
                lemma_docs_wf_bound(roots, ad2);
            }
        },
        _ => {},
    }
}

/// The newest version of document `id` under history root `hr`, with the
/// load starting a fresh resolution stack holding `id` alone.
pub open spec fn load_newest_spec(
    fs: Storage,
    roots: DocRoots,
    cr: Seq<char>,
    id: int,
    hr: Seq<char>,
) -> Result<DocModel, ErrModel> {
    load_doc_spec(fs, roots, cr, id, hr, seq![id])
}

/// One explicit version of document `id` under history root `hr`.
pub open spec fn load_version_spec(
    fs: Storage,
    roots: DocRoots,
    cr: Seq<char>,
    id: int,
    hr: Seq<char>,
    maj: int,
    min: int,
) -> Result<DocModel, ErrModel> {
    load_at_version_spec(fs, roots, cr, id, hr, maj, min, seq![id])
}

pub open spec fn load_result_view(r: Result<Document, DocError>) -> Result<DocModel, ErrModel> {
    match r {
        Ok(d) => Ok(doc_view(d)),
        Err(e) => Err(err_view(e)),
    }
}

pub open spec fn part_result_view(r: Result<DocPart, DocError>) -> Result<PartModel, ErrModel> {
    match r {
        Ok(p) => Ok(part_view(p)),
        Err(e) => Err(err_view(e)),
    }
}

pub open spec fn parts_result_view(r: Result<Vec<DocPart>, DocError>) -> Result<
    Seq<PartModel>,
    ErrModel,
> {
    match r {
        Ok(v) => Ok(parts_view(v@)),
        Err(e) => Err(err_view(e)),
    }
}

/// The active document stack as a sequence of plain integers.
pub open spec fn ids_model(s: Seq<i32>) -> Seq<int> {
    s.map_values(|x: i32| x as int)
}

/// The active area-listing stack as a sequence of paths.
pub open spec fn paths_model(s: Seq<String>) -> Seq<Seq<char>> {
    s.map_values(|x: String| x@)
}

fn contains_id(v: &Vec<i32>, x: i32) -> (r: bool)
    ensures
        r == ids_model(v@).contains(x as int),
{
    let mut i: usize = 0;
    while i < v.len()
        invariant
            i <= v.len(),
            forall|k: int| 0 <= k < i ==> v@[k] != x,
        decreases v.len() - i,
    {
        if v[i] == x {
            assert(ids_model(v@)[i as int] == x as int);
            return true;
        }
        i = i + 1;
    }
    proof {
        if ids_model(v@).contains(x as int) {
            let w = choose|k: int|
                0 <= k < ids_model(v@).len() && ids_model(v@)[k] == x as int;
            assert(v@[w] == x);
        }
    }
    false
}

fn contains_path(v: &Vec<String>, s: &str) -> (r: bool)
    ensures
        r == paths_model(v@).contains(s@),
{
    let mut i: usize = 0;
    while i < v.len()
        invariant
            i <= v.len(),
            forall|k: int| 0 <= k < i ==> v@[k]@ != s@,
        decreases v.len() - i,
    {
        if str_eq(v[i].as_str(), s) {
            assert(paths_model(v@)[i as int] == s@);
            return true;
        }
        i = i + 1;
    }
    proof {
        if paths_model(v@).contains(s@) {
            let w = choose|k: int|
                0 <= k < paths_model(v@).len() && paths_model(v@)[k] == s@;
            assert(v@[w]@ == s@);
        }
    }
    false
}

impl DocRoots {
    /// The history root registered for `id`, if any: first match wins.
    pub fn root_of<'a>(&'a self, id: i32) -> (r: Option<&'a String>)
        ensures
            match r {
                Some(hr) => root_of_spec(self.entries@, id as int) == Some(hr@),
                None => root_of_spec(self.entries@, id as int) is None,
            },
    {
        let mut i: usize = 0;
        while i < self.entries.len()
            invariant
                i <= self.entries.len(),
                forall|k: int| 0 <= k < i ==> self.entries@[k].0 as int != id as int,
            decreases self.entries.len() - i,
        {
            if self.entries[i].0 == id {
                proof {
                    lemma_root_of_skip(self.entries@, id as int, i as int);
                    let tail = self.entries@.subrange(i as int, self.entries@.len() as int);
                    assert(tail[0] == self.entries@[i as int]);
                }
                return Some(&self.entries[i].1);
            }
            i = i + 1;
        }
        proof {
            lemma_root_of_skip(self.entries@, id as int, i as int);
        }
        None
    }
}

fn load_doc_x(
    fs: &Storage,
    roots: &DocRoots,
    cr: &str,
    id: i32,
    hr: &str,
    ad: &mut Vec<i32>,
) -> (r: Result<Document, DocError>)
    requires
        docs_wf(*roots, ids_model(old(ad)@)),
    ensures
        final(ad)@ == old(ad)@,
        load_result_view(r) == load_doc_spec(
            *fs,
            *roots,
            cr@,
            id as int,
            hr@,
            ids_model(old(ad)@),
        ),
    decreases dm(*roots, ids_model(old(ad)@)), fs.files@.len() + 2, 0int, 0int,
{
    let logpath = path_join(hr, "changelog");
    match fs.find_file(logpath.as_str()) {
        Some(FileData::Log(log)) => {
            match resolve_latest_version(log, id) {
                Err(e) => Err(e),
                Ok(v) => load_at_version_x(fs, roots, cr, id, hr, v[0], v[1], ad),
            }
        },
        _ => Err(DocError::NonExistentOrEmptyDocument { doc_id: id }),
    }
}

fn load_at_version_x(
    fs: &Storage,
    roots: &DocRoots,
    cr: &str,
    id: i32,
    hr: &str,
    maj: i32,
    min: i32,
    ad: &mut Vec<i32>,
) -> (r: Result<Document, DocError>)
    requires
        docs_wf(*roots, ids_model(old(ad)@)),
    ensures
        final(ad)@ == old(ad)@,
        load_result_view(r) == load_at_version_spec(
            *fs,
            *roots,
            cr@,
            id as int,
            hr@,
            maj as int,
            min as int,
            ids_model(old(ad)@),
        ),
    decreases dm(*roots, ids_model(old(ad)@)), fs.files@.len() + 1, 0int, 0int,
{
    let majs = i32_to_dec(maj);
    let mins = i32_to_dec(min);
    let dir = path_join(hr, majs.as_str());
    let mpath = path_join(dir.as_str(), mins.as_str());
    match fs.find_file(mpath.as_str()) {
        Some(FileData::Text(lines)) => {
            match parse_slots_from(lines, 0) {
                Err(j) => Err(DocError::MalformedManifestLine { doc_id: id, line: j }),
                Ok(slots) => {
                    let mut aa: Vec<String> = Vec::new();
                    proof {
                        assert(paths_model(aa@) =~= Seq::<Seq<char>>::empty());
                    }
                    match resolve_slots_x(fs, roots, cr, id, &slots, 0, ad, &mut aa) {
                        Err(e) => Err(e),
                        Ok(parts) => Ok(Document { id, version: [maj, min], pars: parts }),
                    }
                },
            }
        },
        _ => Err(DocError::VersionNotFound { doc_id: id, major: maj, minor: min }),
    }
}

fn resolve_slots_x(
    fs: &Storage,
    roots: &DocRoots,
    cr: &str,
    id: i32,
    slots: &Vec<ManifestSlot>,
    j: usize,
    ad: &mut Vec<i32>,
    aa: &mut Vec<String>,
) -> (r: Result<Vec<DocPart>, DocError>)
    requires
        j <= slots.len(),
        docs_wf(*roots, ids_model(old(ad)@)),
        areas_wf(*fs, paths_model(old(aa)@)),
    ensures
        final(ad)@ == old(ad)@,
        final(aa)@ == old(aa)@,
        parts_result_view(r) == resolve_slots_spec(
            *fs,
            *roots,
            cr@,
            id as int,
            slots@.map_values(|m: ManifestSlot| slot_view(m)),
            j as int,
            ids_model(old(ad)@),
            paths_model(old(aa)@),
        ),
    decreases dm(*roots, ids_model(old(ad)@)), am(*fs, paths_model(old(aa)@)), slots@.len() - j, 1int,
{
    let ghost smodels = slots@.map_values(|m: ManifestSlot| slot_view(m));
    if j >= slots.len() {
        let out: Vec<DocPart> = Vec::new();
        proof {
            assert(parts_view(out@) =~= Seq::<PartModel>::empty());
        }
        Ok(out)
    } else {
        match resolve_slot_x(fs, roots, cr, id, &slots[j], ad, aa) {
            Err(e) => Err(e),
            Ok(part) => {
                match resolve_slots_x(fs, roots, cr, id, slots, j + 1, ad, aa) {
                    Err(e) => Err(e),
                    Ok(mut rest) => {
                        let ghost rest_seq = rest@;
                        let ghost pm = part_view(part);
                        let mut out: Vec<DocPart> = Vec::new();
                        out.push(part);
                        out.append(&mut rest);
                        proof {
                            assert(out@[0] == part);
                            assert(out@.drop_first() =~= rest_seq);
                            assert(parts_view(out@) == seq![pm] + parts_view(rest_seq));
                        }
                        Ok(out)
                    },
                }
            },
        }
    }
}

fn resolve_slot_x(
    fs: &Storage,
    roots: &DocRoots,
    cr: &str,
    id: i32,
    slot: &ManifestSlot,
    ad: &mut Vec<i32>,
    aa: &mut Vec<String>,
) -> (r: Result<DocPart, DocError>)
    requires
        docs_wf(*roots, ids_model(old(ad)@)),
        areas_wf(*fs, paths_model(old(aa)@)),
    ensures
        final(ad)@ == old(ad)@,
        final(aa)@ == old(aa)@,
        part_result_view(r) == resolve_slot_spec(
            *fs,
            *roots,
            cr@,
            id as int,
            slot_view(*slot),
            ids_model(old(ad)@),
            paths_model(old(aa)@),
        ),
    decreases dm(*roots, ids_model(old(ad)@)), am(*fs, paths_model(old(aa)@)), 0int, 0int,
{
    match slot {
        ManifestSlot::Par { shard, key } => {
            match fs.load_object(cr, shard.as_str(), key.as_str()) {
                Err(e) => Err(e),
                Ok(bytes) => Ok(
                    DocPart::Par(
                        DocParagraph { id: shard.clone(), hash: key.clone(), content: bytes },
                    ),
                ),
            }
        },
        ManifestSlot::Area { name, shard, key } => {
            let dir = path_join(cr, shard.as_str());
            let path = path_join(dir.as_str(), key.as_str());
            if contains_path(aa, path.as_str()) {
                Err(DocError::ReferenceCycleDetected { dest_doc_id: id })
            } else {
                match fs.find_file(path.as_str()) {
                    None => Err(
                        DocError::ParagraphNotFound { shard: shard.clone(), key: key.clone() },
                    ),
                    Some(FileData::Text(lines)) => {
                        match parse_slots_from(lines, 0) {
                            Err(j) => Err(DocError::MalformedManifestLine { doc_id: id, line: j }),
                            Ok(cslots) => {
                                let ghost aa0 = paths_model(aa@);
                                aa.push(path);
                                proof {
                                    assert(paths_model(aa@) =~= aa0.push(
                                        paths_model(aa@)[aa0.len() as int],
                                    ));
                                    assert(aa@[aa0.len() as int]@ == object_path_spec(
                                        cr@,
                                        shard@,
                                        key@,
                                    ));
                                    assert(paths_model(aa@) =~= aa0.push(
                                        object_path_spec(cr@, shard@, key@),
                                    ));
                                    assert(areas_wf(*fs, paths_model(aa@))) by {
                                        broadcast use vstd::seq_lib::group_seq_properties;

                                        assert(forall|k: int|
                                            0 <= k < aa0.len() ==> paths_model(aa@)[k] == aa0[k]);
                                    }
                                    lemma_areas_wf_bound(*fs, paths_model(aa@));
                                }
                                let res = resolve_slots_x(fs, roots, cr, id, &cslots, 0, ad, aa);
                                aa.pop();
                                proof {
                                    assert(aa@ =~= old(aa)@);
                                }
                                match res {
                                    Err(e) => Err(e),
                                    Ok(parts) => Ok(
                                        DocPart::Area(Area { name: name.clone(), parts }),
                                    ),
                                }
                            },
                        }
                    },
                    Some(_) => Err(
                        DocError::CorruptParagraph { shard: shard.clone(), key: key.clone() },
                    ),
                }
            }
        },
        ManifestSlot::Ref { dest_doc_id, dest_id } => {
            let d = *dest_doc_id;
            if contains_id(ad, d) {
                Err(DocError::ReferenceCycleDetected { dest_doc_id: d })
            } else {
                match roots.root_of(d) {
                    None => Err(DocError::NonExistentOrEmptyDocument { doc_id: d }),
                    Some(hr2) => {
                        let hr2s: String = hr2.clone();
                        let ghost ad0 = ids_model(ad@);
                        ad.push(d);
                        proof {
                            assert(ids_model(ad@) =~= ad0.push(d as int));
                            assert(docs_wf(*roots, ids_model(ad@))) by {
                                broadcast use vstd::seq_lib::group_seq_properties;

                                assert(forall|k: int|
                                    0 <= k < ad0.len() ==> ids_model(ad@)[k] == ad0[k]);
                            }
                            lemma_docs_wf_bound(*roots, ids_model(ad@));
                        }
                        let res = load_doc_x(fs, roots, cr, d, hr2s.as_str(), ad);
                        ad.pop();
                        proof {
                            assert(ad@ =~= old(ad)@);
                        }
                        match res {
                            Err(e) => Err(e),
                            Ok(doc) => {
                                match find_target_in_parts(&doc.pars, dest_id.as_str()) {
                                    None => Err(
                                        DocError::ReferenceTargetNotFound {
                                            dest_doc_id: d,
                                            dest_id: dest_id.clone(),
                                        },
                                    ),
                                    Some(FoundTarget::Par(p)) => Ok(
                                        DocPart::Reference(
                                            Reference::Par {
                                                dest_id: dest_id.clone(),
                                                dest_doc_id: d,
                                                par: p,
                                            },
                                        ),
                                    ),
                                    Some(FoundTarget::Area(a)) => {
                                        let nm: String = a.name.clone();
                                        Ok(
                                            DocPart::Reference(
                                                Reference::Area {
                                                    name: nm,
                                                    dest_doc_id: d,
                                                    area: a,
                                                },
                                            ),
                                        )
                                    },
                                }
                            },
                        }
                    },
                }
            }
        },
    }
}

impl Document {
    /// Loads the newest version of document `id`: its change log (under
    /// `history_root`) names the current version, that version's manifest
    /// names the slots, and every slot resolves against the content store
    /// (under `content_root`), areas and references included. Fail-fast:
    /// any error aborts the whole load and no partial document is returned.
    pub fn load_newest(
        id: i32,
        history_root: &str,
        content_root: &str,
        fs: &Storage,
        roots: &DocRoots,
    ) -> (r: Result<Document, DocError>)
        ensures
            load_result_view(r) == load_newest_spec(
                *fs,
                *roots,
                content_root@,
                id as int,
                history_root@,
            ),
    {
        let mut ad: Vec<i32> = Vec::new();
        ad.push(id);
        proof {
            assert(ids_model(ad@) =~= seq![id as int]);
        }
        load_doc_x(fs, roots, content_root, id, history_root, &mut ad)
    }

    /// Loads one explicit version of document `id`, for historical access:
    /// the same pipeline as `load_newest`, with the version given instead of
    /// read from the change log.
    pub fn load_version(
        id: i32,
        version: [i32; 2],
        history_root: &str,
        content_root: &str,
        fs: &Storage,
        roots: &DocRoots,
    ) -> (r: Result<Document, DocError>)
        ensures
            load_result_view(r) == load_version_spec(
                *fs,
                *roots,
                content_root@,
                id as int,
                history_root@,
                version@[0] as int,
                version@[1] as int,
            ),
    {
        let mut ad: Vec<i32> = Vec::new();
        ad.push(id);
        proof {
            assert(ids_model(ad@) =~= seq![id as int]);
        }
        load_at_version_x(fs, roots, content_root, id, history_root, version[0], version[1], &mut ad)
    }
}

} // verus!
