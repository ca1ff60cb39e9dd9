use vstd::prelude::*;
use crate::changelog::LogRecord;
use crate::error::{DocError, ErrModel};

verus! {

/// The content of one stored file, as the engine sees it.
///
/// All three storage layers are immutable after publication, so a load
/// works against a snapshot of them. A change log arrives with each line
/// already decoded (or marked undecodable) by the external record decoder;
/// a manifest or area listing arrives as its text lines; a content object
/// arrives as its raw bytes.
#[derive(Debug, Clone, PartialEq, Eq)]
pub enum FileData {
    Log(Vec<LogRecord>),
    Text(Vec<String>),
    Bytes(Vec<u8>),
}

/// A snapshot of every published file, keyed by its full path.
/// Lookup takes the first entry whose path matches.
#[derive(Debug, Clone, PartialEq, Eq)]
pub struct Storage {
    pub files: Vec<(String, FileData)>,
}

/// First file whose path equals `path`, if any.
pub open spec fn lookup_spec(files: Seq<(String, FileData)>, path: Seq<char>) -> Option<FileData>
    decreases files.len(),
{
    if files.len() == 0 {
        None
    } else if files[0].0@ == path {
        Some(files[0].1)
    } else {
        lookup_spec(files.drop_first(), path)
    }
}

proof fn lemma_lookup_skip(files: Seq<(String, FileData)>, path: Seq<char>, i: int)
    requires
        0 <= i <= files.len(),
        forall|k: int| 0 <= k < i ==> files[k].0@ != path,
    ensures
        lookup_spec(files, path) == lookup_spec(files.subrange(i, files.len() as int), path),
    decreases i,
{
    if i > 0 {
        lemma_lookup_skip(files, path, i - 1);
        let tail = files.subrange(i - 1, files.len() as int);
        assert(tail[0] == files[i - 1]);
        assert(tail.drop_first() =~= files.subrange(i, files.len() as int));
    } else {
        assert(files.subrange(0, files.len() as int) =~= files);
    }
}

/// `a`, a separator `/`, then `b`: the one accepted path composition.
pub open spec fn join2(a: Seq<char>, b: Seq<char>) -> Seq<char> {
    a + seq!['/'] + b
}

/// The store location of the object named by a manifest slot:
/// `content_root/shard/key`, exactly.
pub open spec fn object_path_spec(content_root: Seq<char>, shard: Seq<char>, key: Seq<char>) -> Seq<
    char,
> {
    join2(join2(content_root, shard), key)
}

/// What loading a content object returns, as a function of the snapshot:
/// the bytes at `content_root/shard/key`; `ParagraphNotFound` if no file is
/// there; `CorruptParagraph` if a file is there but is not a byte object.
pub open spec fn store_load_spec(
    files: Seq<(String, FileData)>,
    content_root: Seq<char>,
    shard: Seq<char>,
    key: Seq<char>,
) -> Result<Seq<u8>, ErrModel> {
    match lookup_spec(files, object_path_spec(content_root, shard, key)) {
        None => Err(ErrModel::ParagraphNotFound { shard, key }),
        Some(FileData::Bytes(b)) => Ok(b@),
        Some(_) => Err(ErrModel::CorruptParagraph { shard, key }),
    }
}

pub fn path_join(a: &str, b: &str) -> (r: String)
    ensures
        r@ == join2(a@, b@),
{
    let mut s: String = a.to_owned();
    s.append("/");
    s.append(b);
    proof {
        reveal_strlit("/");
        assert(s@ =~= join2(a@, b@));
    }
    s
}

/// String equality over the character views.
pub fn str_eq(a: &str, b: &str) -> (r: bool)
    ensures
        r == (a@ == b@),
{
    let x: String = a.to_owned();
    let y: String = b.to_owned();
    x == y
}

pub fn copy_bytes(src: &Vec<u8>) -> (r: Vec<u8>)
    ensures
        r@ == src@,
{
    let mut out: Vec<u8> = Vec::new();
    let mut i: usize = 0;
    while i < src.len()
        invariant
            i <= src.len(),
            out@ =~= src@.subrange(0, i as int),
        decreases src.len() - i,
    {
        out.push(src[i]);
        i = i + 1;
    }
    proof {
        assert(out@ =~= src@);
    }
    out
}

impl Storage {
    /// The file published at `path`, if any: first match wins.
    pub fn find_file<'a>(&'a self, path: &str) -> (r: Option<&'a FileData>)
        ensures
            match r {
                Some(f) => lookup_spec(self.files@, path@) == Some(*f),
                None => lookup_spec(self.files@, path@) is None,
            },
    {
        let mut i: usize = 0;
        while i < self.files.len()
            invariant
                i <= self.files.len(),
                forall|k: int| 0 <= k < i ==> self.files@[k].0@ != path@,
            decreases self.files.len() - i,
        {
            if str_eq(self.files[i].0.as_str(), path) {
                proof {
                    lemma_lookup_skip(self.files@, path@, i as int);
                    let tail = self.files@.subrange(i as int, self.files@.len() as int);
                    assert(tail[0] == self.files@[i as int]);
                }
                return Some(&self.files[i].1);
            }
            i = i + 1;
        }
        proof {
            lemma_lookup_skip(self.files@, path@, i as int);
        }
        None
    }

    /// Loads one content object from `content_root/shard/key`.
    /// A missing file is `ParagraphNotFound`; a file of the wrong shape is
    /// `CorruptParagraph`; the store never hands back a silently empty object.
    pub fn load_object(&self, content_root: &str, shard: &str, key: &str) -> (r: Result<
        Vec<u8>,
        DocError,
    >)
        ensures
            match r {
                Ok(b) => store_load_spec(self.files@, content_root@, shard@, key@) == Ok::<
                    _,
                    ErrModel,
                >(b@),
                Err(e) => store_load_spec(self.files@, content_root@, shard@, key@) == Err::<
                    Seq<u8>,
                    _,
                >(crate::error::err_view(e)),
            },
    {
        let dir = path_join(content_root, shard);
        let path = path_join(dir.as_str(), key);
        match self.find_file(path.as_str()) {
            None => Err(
                DocError::ParagraphNotFound { shard: shard.to_owned(), key: key.to_owned() },
            ),
            Some(FileData::Bytes(b)) => Ok(copy_bytes(b)),
            Some(_) => Err(
                DocError::CorruptParagraph { shard: shard.to_owned(), key: key.to_owned() },
            ),
        }
    }
}

} // verus!
