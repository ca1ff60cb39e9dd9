use vstd::prelude::*;
use crate::numtext::{parse_u32, parse_u32_spec};
use crate::storage::str_eq;

verus! {

/// One parsed manifest (or area-listing) line.
///
/// The line grammar, one slot per line:
/// - `<shard>/<key>` — a paragraph slot; the split point is the first `/`
///   only, every further `/` belongs to the key verbatim.
/// - `@ref <dest_doc_id> <dest_id>` — a reference into another document.
/// - `@area <name> <shard>/<key>` — a named area whose ordered child slots
///   are the lines of the listing object stored at `content_root/shard/key`.
#[derive(Debug, Clone, PartialEq, Eq)]
pub enum ManifestSlot {
    Par { shard: String, key: String },
    Ref { dest_doc_id: i32, dest_id: String },
    Area { name: String, shard: String, key: String },
}

/// Mathematical model of one slot.
pub enum SlotModel {
    Par { shard: Seq<char>, key: Seq<char> },
    Ref { dest_doc_id: int, dest_id: Seq<char> },
    Area { name: Seq<char>, shard: Seq<char>, key: Seq<char> },
}

pub open spec fn slot_view(s: ManifestSlot) -> SlotModel {
    match s {
        ManifestSlot::Par { shard, key } => SlotModel::Par { shard: shard@, key: key@ },
        ManifestSlot::Ref { dest_doc_id, dest_id } => SlotModel::Ref {
            dest_doc_id: dest_doc_id as int,
            dest_id: dest_id@,
        },
        ManifestSlot::Area { name, shard, key } => SlotModel::Area {
            name: name@,
            shard: shard@,
            key: key@,
        },
    }
}

/// Index of the first occurrence of `c` in `s`; `s.len()` when absent.
pub open spec fn first_ix(s: Seq<char>, c: char) -> int
    decreases s.len(),
{
    if s.len() == 0 {
        0
    } else if s[0] == c {
        0
    } else {
        1 + first_ix(s.drop_first(), c)
    }
}

pub proof fn lemma_first_ix(s: Seq<char>, c: char)
    ensures
        0 <= first_ix(s, c) <= s.len(),
        first_ix(s, c) < s.len() ==> s[first_ix(s, c)] == c,
        forall|k: int| 0 <= k < first_ix(s, c) ==> s[k] != c,
    decreases s.len(),
{
    if s.len() > 0 && s[0] != c {
        lemma_first_ix(s.drop_first(), c);
        assert forall|k: int| 0 <= k < first_ix(s, c) implies s[k] != c by {
            if k > 0 {
                assert(s.drop_first()[k - 1] == s[k]);
            }
        }
    }
}

/// Does `s` start with the prefix `p`?
pub open spec fn starts_with(s: Seq<char>, p: Seq<char>) -> bool {
    s.len() >= p.len() && s.subrange(0, p.len() as int) == p
}

/// A paragraph line: shard before the first `/`, key after it, verbatim.
pub open spec fn parse_par_spec(line: Seq<char>) -> Option<SlotModel> {
    let i = first_ix(line, '/');
    if i < line.len() {
        Some(
            SlotModel::Par {
                shard: line.subrange(0, i),
                key: line.subrange(i + 1, line.len() as int),
            },
        )
    } else {
        None
    }
}

/// The rest of a `@ref ` line: a document number, a space, a non-empty slot id.
pub open spec fn parse_ref_spec(rest: Seq<char>) -> Option<SlotModel> {
    let i = first_ix(rest, ' ');
    if i < rest.len() {
        match parse_u32_spec(rest.subrange(0, i)) {
            Some(v) => if v <= i32::MAX as u32 && i + 1 < rest.len() {
                Some(
                    SlotModel::Ref {
                        dest_doc_id: v as int,
                        dest_id: rest.subrange(i + 1, rest.len() as int),
                    },
                )
            } else {
                None
            },
            None => None,
        }
    } else {
        None
    }
}

/// The rest of an `@area ` line: a non-empty name, a space, a `<shard>/<key>` locator.
pub open spec fn parse_area_spec(rest: Seq<char>) -> Option<SlotModel> {
    let i = first_ix(rest, ' ');
    if 0 < i && i < rest.len() {
        let locator = rest.subrange(i + 1, rest.len() as int);
        match parse_par_spec(locator) {
            Some(SlotModel::Par { shard, key }) => Some(
                SlotModel::Area { name: rest.subrange(0, i), shard, key },
            ),
            _ => None,
        }
    } else {
        None
    }
}

/// What parsing one manifest line returns; `None` is a malformed line.
pub open spec fn parse_slot_spec(line: Seq<char>) -> Option<SlotModel> {
    if starts_with(line, "@ref "@) {
        parse_ref_spec(line.subrange(5, line.len() as int))
    } else if starts_with(line, "@area "@) {
        parse_area_spec(line.subrange(6, line.len() as int))
    } else {
        parse_par_spec(line)
    }
}

/// All lines from `i` on, in order; `Err` carries the offset of the first
/// malformed line.
pub open spec fn parse_slots_spec(lines: Seq<String>, i: int) -> Result<Seq<SlotModel>, int>
    decreases lines.len() - i,
{
    if i < 0 || i >= lines.len() {
        Ok(Seq::empty())
    } else {
        match parse_slot_spec(lines[i]@) {
            None => Err(i),
            Some(sm) => match parse_slots_spec(lines, i + 1) {
                Err(j) => Err(j),
                Ok(rest) => Ok(seq![sm] + rest),
            },
        }
    }
}

/// First index of `c` in `s`, or the length of `s` when `c` does not occur.
pub fn find_char(s: &str, c: char) -> (r: usize)
    ensures
        r as int == first_ix(s@, c),
{
    let n = s.unicode_len();
    let mut i: usize = 0;
    while i < n
        invariant
            0 <= i <= n == s@.len(),
            forall|k: int| 0 <= k < i ==> s@[k] != c,
        decreases n - i,
    {
        if s.get_char(i) == c {
            proof {
                lemma_first_ix(s@, c);
            }
            return i;
        }
        i = i + 1;
    }
    proof {
        lemma_first_ix(s@, c);
    }
    n
}

fn parse_par(line: &str) -> (r: Option<ManifestSlot>)
    ensures
        match r {
            Some(sl) => parse_par_spec(line@) == Some(slot_view(sl)),
            None => parse_par_spec(line@) is None,
        },
{
    let n = line.unicode_len();
    let i = find_char(line, '/');
    if i < n {
        let shard = line.substring_char(0, i);
        let key = line.substring_char(i + 1, n);
        Some(ManifestSlot::Par { shard: shard.to_owned(), key: key.to_owned() })
    } else {
        None
    }
}

fn parse_ref(rest: &str) -> (r: Option<ManifestSlot>)
    ensures
        match r {
            Some(sl) => parse_ref_spec(rest@) == Some(slot_view(sl)),
            None => parse_ref_spec(rest@) is None,
        },
{
    let n = rest.unicode_len();
    let i = find_char(rest, ' ');
    if i >= n {
        return None;
    }
    let num = rest.substring_char(0, i);
    match parse_u32(num) {
        None => None,
        Some(v) => {
            if v <= i32::MAX as u32 && i + 1 < n {
                let dest = rest.substring_char(i + 1, n);
                Some(ManifestSlot::Ref { dest_doc_id: v as i32, dest_id: dest.to_owned() })
            } else {
                None
            }
        },
    }
}

fn parse_area(rest: &str) -> (r: Option<ManifestSlot>)
    ensures
        match r {
            Some(sl) => parse_area_spec(rest@) == Some(slot_view(sl)),
            None => parse_area_spec(rest@) is None,
        },
{
    let n = rest.unicode_len();
    let i = find_char(rest, ' ');
    if i == 0 || i >= n {
        return None;
    }
    let name = rest.substring_char(0, i);
    let locator = rest.substring_char(i + 1, n);
    match parse_par(locator) {
        Some(ManifestSlot::Par { shard, key }) => Some(
            ManifestSlot::Area { name: name.to_owned(), shard, key },
        ),
        _ => None,
    }
}

/// Parses one manifest (or area-listing) line into a slot; `None` means the
/// line matches no form of the slot grammar.
pub fn parse_slot(line: &str) -> (r: Option<ManifestSlot>)
    ensures
        match r {
            Some(sl) => parse_slot_spec(line@) == Some(slot_view(sl)),
            None => parse_slot_spec(line@) is None,
        },
{
    let n = line.unicode_len();
    proof {
        reveal_strlit("@ref ");
        reveal_strlit("@area ");
    }
    if n >= 5 && str_eq(line.substring_char(0, 5), "@ref ") {
        parse_ref(line.substring_char(5, n))
    } else if n >= 6 && str_eq(line.substring_char(0, 6), "@area ") {
        parse_area(line.substring_char(6, n))
    } else {
        parse_slot_not_directive(line)
    }
}

/// A line with neither directive prefix is a paragraph line.
fn parse_slot_not_directive(line: &str) -> (r: Option<ManifestSlot>)
    requires
        !starts_with(line@, "@ref "@),
        !starts_with(line@, "@area "@),
    ensures
        match r {
            Some(sl) => parse_slot_spec(line@) == Some(slot_view(sl)),
            None => parse_slot_spec(line@) is None,
        },
{
    parse_par(line)
}

/// Parses every line from `i` on; `Err` is the offset of the first malformed line.
pub fn parse_slots_from(lines: &Vec<String>, i: usize) -> (r: Result<Vec<ManifestSlot>, usize>)
    ensures
        match r {
            Ok(v) => parse_slots_spec(lines@, i as int) == Ok::<_, int>(
                v@.map_values(|m: ManifestSlot| slot_view(m)),
            ),
            Err(j) => parse_slots_spec(lines@, i as int) == Err::<Seq<SlotModel>, _>(j as int),
        },
    decreases lines.len() - i,
{
    if i >= lines.len() {
        let out: Vec<ManifestSlot> = Vec::new();
        proof {
            assert(out@.map_values(|m: ManifestSlot| slot_view(m)) =~= Seq::<SlotModel>::empty());
        }
        Ok(out)
    } else {
        match parse_slot(lines[i].as_str()) {
            None => Err(i),
            Some(sl) => {
                match parse_slots_from(lines, i + 1) {
                    Err(j) => Err(j),
                    Ok(mut rest) => {
                        let ghost rest_model = rest@.map_values(|m: ManifestSlot| slot_view(m));
                        let mut out: Vec<ManifestSlot> = Vec::new();
                        out.push(sl);
                        out.append(&mut rest);
                        proof {
                            assert(out@.map_values(|m: ManifestSlot| slot_view(m)) =~= seq![
                                slot_view(sl),
                            ] + rest_model);
                        }
                        Ok(out)
                    },
                }
            },
        }
    }
}

} // verus!
