use vstd::prelude::*;
use crate::storage::{copy_bytes, str_eq};

verus! {

/// An immutable content unit: a stable slot id, a content hash, and the
/// raw bytes loaded from the content store.
#[derive(Debug, Clone, PartialEq, Eq)]
pub struct DocParagraph {
    pub id: String,
    pub hash: String,
    pub content: Vec<u8>,
}

/// A named, ordered, recursively nestable container of document parts.
#[derive(Debug, PartialEq, Eq)]
pub struct Area {
    pub name: String,
    pub parts: Vec<DocPart>,
}

/// A resolved pointer into another document: either a paragraph of the
/// target located by slot id, or an area of the target located by name.
/// The resolved target is materialized eagerly.
#[derive(Debug, PartialEq, Eq)]
pub enum Reference {
    Par { dest_id: String, dest_doc_id: i32, par: DocParagraph },
    Area { name: String, dest_doc_id: i32, area: Area },
}

/// One node of a materialized document tree.
#[derive(Debug, PartialEq, Eq)]
pub enum DocPart {
    Par(DocParagraph),
    Reference(Reference),
    Area(Area),
}

/// A fully materialized document: built fresh on each load, owned solely
/// by its caller.
#[derive(Debug, PartialEq, Eq)]
pub struct Document {
    pub id: i32,
    pub version: [i32; 2],
    pub pars: Vec<DocPart>,
}

/// Mathematical models of the tree, over plain sequences and integers.
pub struct ParModel {
    pub id: Seq<char>,
    pub hash: Seq<char>,
    pub content: Seq<u8>,
}

pub struct AreaModel {
    pub name: Seq<char>,
    pub parts: Seq<PartModel>,
}

pub enum RefModel {
    Par { dest_id: Seq<char>, dest_doc_id: int, par: ParModel },
    Area { name: Seq<char>, dest_doc_id: int, area: AreaModel },
}

pub enum PartModel {
    Par(ParModel),
    Reference(RefModel),
    Area(AreaModel),
}

pub struct DocModel {
    pub id: int,
    pub version: (int, int),
    pub pars: Seq<PartModel>,
}

pub open spec fn par_view(p: DocParagraph) -> ParModel {
    ParModel { id: p.id@, hash: p.hash@, content: p.content@ }
}

pub open spec fn part_view(p: DocPart) -> PartModel
    decreases p,
{
    match p {
        DocPart::Par(par) => PartModel::Par(par_view(par)),
        DocPart::Reference(r) => PartModel::Reference(
            match r {
                Reference::Par { dest_id, dest_doc_id, par } => RefModel::Par {
                    dest_id: dest_id@,
                    dest_doc_id: dest_doc_id as int,
                    par: par_view(par),
                },
                Reference::Area { name, dest_doc_id, area } => RefModel::Area {
                    name: name@,
                    dest_doc_id: dest_doc_id as int,
                    area: area_view(area),
                },
            },
        ),
        DocPart::Area(a) => PartModel::Area(area_view(a)),
    }
}

pub open spec fn area_view(a: Area) -> AreaModel
    decreases a,
{
    AreaModel { name: a.name@, parts: parts_view(a.parts@) }
}

pub open spec fn parts_view(parts: Seq<DocPart>) -> Seq<PartModel>
    decreases parts,
{
    if parts.len() == 0 {
        Seq::empty()
    } else {
        seq![part_view(parts[0])] + parts_view(parts.drop_first())
    }
}

pub open spec fn doc_view(d: Document) -> DocModel {
    DocModel {
        id: d.id as int,
        version: (d.version@[0] as int, d.version@[1] as int),
        pars: parts_view(d.pars@),
    }
}

/// `parts_view` is the element-wise model of the part list.
pub proof fn lemma_parts_view(parts: Seq<DocPart>)
    ensures
        parts_view(parts).len() == parts.len(),
        forall|i: int|
            0 <= i < parts.len() ==> parts_view(parts)[i] == part_view(#[trigger] parts[i]),
    decreases parts,
{
    if parts.len() > 0 {
        lemma_parts_view(parts.drop_first());
        assert forall|i: int|
            0 <= i < parts.len() implies parts_view(parts)[i] == part_view(
            #[trigger] parts[i],
        ) by {
            if i > 0 {
                assert(parts.drop_first()[i - 1] == parts[i]);
            }
        }
    }
}

/// Deep copy of a paragraph; the model is unchanged.
pub fn dup_par(p: &DocParagraph) -> (r: DocParagraph)
    ensures
        par_view(r) == par_view(*p),
{
    DocParagraph { id: p.id.clone(), hash: p.hash.clone(), content: copy_bytes(&p.content) }
}

/// Deep copy of one part; the model is unchanged.
pub fn dup_part(p: &DocPart) -> (r: DocPart)
    ensures
        part_view(r) == part_view(*p),
    decreases p,
{
    match p {
        DocPart::Par(par) => DocPart::Par(dup_par(par)),
        DocPart::Reference(Reference::Par { dest_id, dest_doc_id, par }) => DocPart::Reference(
            Reference::Par {
                dest_id: dest_id.clone(),
                dest_doc_id: *dest_doc_id,
                par: dup_par(par),
            },
        ),
        DocPart::Reference(Reference::Area { name, dest_doc_id, area }) => DocPart::Reference(
            Reference::Area {
                name: name.clone(),
                dest_doc_id: *dest_doc_id,
                area: dup_area(area),
            },
        ),
        DocPart::Area(a) => DocPart::Area(dup_area(a)),
    }
}

/// Deep copy of an area; the model is unchanged.
pub fn dup_area(a: &Area) -> (r: Area)
    ensures
        area_view(r) == area_view(*a),
    decreases a,
{
    let parts = dup_parts(&a.parts);
    let r = Area { name: a.name.clone(), parts };
    proof {
        assert(area_view(r) == area_view(*a));
    }
    r
}

/// Deep copy of a part list; the model is unchanged.
pub fn dup_parts(v: &Vec<DocPart>) -> (r: Vec<DocPart>)
    ensures
        parts_view(r@) == parts_view(v@),
    decreases v@,
{
    let mut out: Vec<DocPart> = Vec::new();
    let mut i: usize = 0;
    while i < v.len()
        invariant
            i <= v.len(),
            out@.len() == i,
            forall|k: int| 0 <= k < i ==> part_view(out@[k]) == part_view(#[trigger] v@[k]),
        decreases v@.len() - i,
    {
        let d = dup_part(&v[i]);
        out.push(d);
        i = i + 1;
    }
    proof {
        lemma_parts_view(out@);
        lemma_parts_view(v@);
        assert forall|k: int| 0 <= k < v@.len() implies parts_view(out@)[k] == parts_view(
            v@,
        )[k] by {
            assert(part_view(out@[k]) == part_view(v@[k]));
        }
        assert(parts_view(out@) =~= parts_view(v@));
    }
    out
}

/// What a reference can resolve to inside the target document.
pub enum TargetModel {
    Par(ParModel),
    Area(AreaModel),
}

/// Locates `dest` in one part: a paragraph with slot id `dest`, or an area
/// named `dest`; the search descends into areas in order, but not into the
/// already-resolved content of references, which belongs to other documents.
pub open spec fn find_in_part(p: PartModel, dest: Seq<char>) -> Option<TargetModel>
    decreases p,
{
    match p {
        PartModel::Par(pm) => if pm.id == dest {
            Some(TargetModel::Par(pm))
        } else {
            None
        },
        PartModel::Reference(_) => None,
        PartModel::Area(am) => if am.name == dest {
            Some(TargetModel::Area(am))
        } else {
            find_in_parts(am.parts, dest)
        },
    }
}

/// First match for `dest` over the parts in document order, depth first.
pub open spec fn find_in_parts(parts: Seq<PartModel>, dest: Seq<char>) -> Option<TargetModel>
    decreases parts,
{
    if parts.len() == 0 {
        None
    } else {
        match find_in_part(parts[0], dest) {
            Some(t) => Some(t),
            None => find_in_parts(parts.drop_first(), dest),
        }
    }
}

proof fn lemma_find_skip(parts: Seq<PartModel>, dest: Seq<char>, i: int)
    requires
        0 <= i <= parts.len(),
        forall|k: int| 0 <= k < i ==> find_in_part(#[trigger] parts[k], dest) is None,
    ensures
        find_in_parts(parts, dest) == find_in_parts(parts.subrange(i, parts.len() as int), dest),
    decreases i,
{
    if i > 0 {
        lemma_find_skip(parts, dest, i - 1);
        let tail = parts.subrange(i - 1, parts.len() as int);
        assert(tail[0] == parts[i - 1]);
        assert(tail.drop_first() =~= parts.subrange(i, parts.len() as int));
    } else {
        assert(parts.subrange(0, parts.len() as int) =~= parts);
    }
}

/// The found target, duplicated out of the searched tree.
pub enum FoundTarget {
    Par(DocParagraph),
    Area(Area),
}

pub open spec fn found_view(t: FoundTarget) -> TargetModel {
    match t {
        FoundTarget::Par(p) => TargetModel::Par(par_view(p)),
        FoundTarget::Area(a) => TargetModel::Area(area_view(a)),
    }
}

fn find_target_in_part(p: &DocPart, dest: &str) -> (r: Option<FoundTarget>)
    ensures
        match r {
            Some(t) => find_in_part(part_view(*p), dest@) == Some(found_view(t)),
            None => find_in_part(part_view(*p), dest@) is None,
        },
    decreases p,
{
    match p {
        DocPart::Par(par) => {
            if str_eq(par.id.as_str(), dest) {
                Some(FoundTarget::Par(dup_par(par)))
            } else {
                None
            }
        },
        DocPart::Reference(_) => None,
        DocPart::Area(a) => {
            if str_eq(a.name.as_str(), dest) {
                Some(FoundTarget::Area(dup_area(a)))
            } else {
                find_target_in_parts(&a.parts, dest)
            }
        },
    }
}

/// Locates the destination slot of a reference inside the target document's
/// top-level parts. `None` means the target document holds no paragraph with
/// that slot id and no area with that name.
pub fn find_target_in_parts(v: &Vec<DocPart>, dest: &str) -> (r: Option<FoundTarget>)
    ensures
        match r {
            Some(t) => find_in_parts(parts_view(v@), dest@) == Some(found_view(t)),
            None => find_in_parts(parts_view(v@), dest@) is None,
        },
    decreases v@,
{
    let ghost pv = parts_view(v@);
    proof {
        lemma_parts_view(v@);
    }
    let mut i: usize = 0;
    while i < v.len()
        invariant
            i <= v.len(),
            pv == parts_view(v@),
            pv.len() == v@.len(),
            forall|k: int| 0 <= k < v@.len() ==> pv[k] == part_view(#[trigger] v@[k]),
            forall|k: int| 0 <= k < i ==> find_in_part(#[trigger] pv[k], dest@) is None,
        decreases v@.len() - i,
    {
        match find_target_in_part(&v[i], dest) {
            Some(t) => {
                proof {
                    lemma_find_skip(pv, dest@, i as int);
                    let tail = pv.subrange(i as int, pv.len() as int);
                    assert(tail[0] == pv[i as int]);
                }
                return Some(t);
            },
            None => {
                i = i + 1;
            },
        }
    }
    proof {
        lemma_find_skip(pv, dest@, i as int);
    }
    None
}

} // verus!
