//! Structured episode metadata and the deterministic mapping from metadata
//! to a canonical library path, together with an idempotent link operation
//! on an explicit filesystem model.

use vstd::prelude::*;
use vstd::string::*;
use crate::strutil::{dec_str, dec_str2, push_dec, push_dec2};

verus! {

/// Mathematical view of [`BangumiInfo`]: the same fields as character
/// sequences.
pub ghost struct EpisodeMeta {
    pub show_name: Seq<char>,
    pub episode_name: Option<Seq<char>>,
    pub display_name: Option<Seq<char>>,
    pub season: u64,
    pub episode: u64,
    pub category: Option<Seq<char>>,
}

pub open spec fn opt_view(o: Option<String>) -> Option<Seq<char>> {
    match o {
        Some(s) => Some(s@),
        None => None,
    }
}

/// Structured metadata for one episode, extracted from an announcement
/// title: show name, season and episode number, optional episode title and
/// display tag, optional category.
#[derive(Debug)]
pub struct BangumiInfo {
    pub show_name: String,
    pub episode_name: Option<String>,
    pub display_name: Option<String>,
    pub season: u64,
    pub episode: u64,
    pub category: Option<String>,
}

impl View for BangumiInfo {
    type V = EpisodeMeta;

    open spec fn view(&self) -> EpisodeMeta {
        EpisodeMeta {
            show_name: self.show_name@,
            episode_name: opt_view(self.episode_name),
            display_name: opt_view(self.display_name),
            season: self.season,
            episode: self.episode,
            category: opt_view(self.category),
        }
    }
}

impl Default for BangumiInfo {
    fn default() -> (r: Self)
        ensures
            r@ == (EpisodeMeta {
                show_name: Seq::<char>::empty(),
                episode_name: None,
                display_name: None,
                season: 0,
                episode: 0,
                category: None,
            }),
    {
        BangumiInfo {
            show_name: String::new(),
            episode_name: None,
            display_name: None,
            season: 0,
            episode: 0,
            category: None,
        }
    }
}

/// The ` S{season:02}E{episode:02}` tag of a file name.
pub open spec fn episode_tag_spec(season: u64, episode: u64) -> Seq<char> {
    " S"@ + dec_str2(season as nat) + "E"@ + dec_str2(episode as nat)
}

pub open spec fn opt_part(p: Option<Seq<char>>) -> Seq<char> {
    match p {
        Some(s) => " "@ + s,
        None => Seq::<char>::empty(),
    }
}

/// `{show} S{season:02}E{episode:02}[ {episode title}][ {display tag}]{ext}`
pub open spec fn file_name_spec(m: EpisodeMeta, ext: Seq<char>) -> Seq<char> {
    m.show_name + episode_tag_spec(m.season, m.episode) + opt_part(m.episode_name) + opt_part(
        m.display_name,
    ) + ext
}

/// `Season {season}`
pub open spec fn sub_folder_name_spec(m: EpisodeMeta) -> Seq<char> {
    "Season "@ + dec_str(m.season as nat)
}

/// `{show}/Season {season}/{file name with .ext}`
pub open spec fn gen_path_spec(m: EpisodeMeta, ext: Seq<char>) -> Seq<char> {
    m.show_name + "/"@ + sub_folder_name_spec(m) + "/"@ + file_name_spec(m, "."@ + ext)
}

/// Law: the generated path is a function of the metadata and extension
/// alone — equal inputs always yield the identical path.
pub proof fn lemma_gen_path_deterministic(a: EpisodeMeta, b: EpisodeMeta, ext: Seq<char>)
    requires
        a == b,
    ensures
        gen_path_spec(a, ext) == gen_path_spec(b, ext),
{
}

impl BangumiInfo {
    /// The library folder for the show: the show name itself.
    pub fn folder_name(&self) -> (r: String)
        ensures
            r@ == self@.show_name,
    {
        self.show_name.clone()
    }

    /// The season folder inside the show folder.
    pub fn sub_folder_name(&self) -> (r: String)
        ensures
            r@ == sub_folder_name_spec(self@),
    {
        let mut s = String::from_str("Season ");
        push_dec(&mut s, self.season);
        s
    }

    /// The canonical file name; `extension` must carry its leading dot.
    pub fn file_name(&self, extension: &str) -> (r: String)
        requires
            extension@.len() > 0,
            extension@[0] == '.',
        ensures
            r@ == file_name_spec(self@, extension@),
    {
        let mut s = self.show_name.clone();
        s.append(" S");
        push_dec2(&mut s, self.season);
        s.append("E");
        push_dec2(&mut s, self.episode);
        match &self.episode_name {
            Some(episode_name) => {
                s.append(" ");
                s.append(episode_name.as_str());
            },
            None => {},
        }
        match &self.display_name {
            Some(display_name) => {
                s.append(" ");
                s.append(display_name.as_str());
            },
            None => {},
        }
        s.append(extension);
        proof {
            assert(s@ =~= file_name_spec(self@, extension@));
        }
        s
    }

    /// The canonical relative path of the episode file below the archive
    /// root; `extension` is given without its leading dot.
    pub fn gen_path(&self, extension: &str) -> (r: String)
        requires
            forall|i: int| 0 <= i < extension@.len() ==> extension@[i] != '.',
        ensures
            r@ == gen_path_spec(self@, extension@),
    {
        let mut dot_ext = String::from_str(".");
        dot_ext.append(extension);
        proof {
            reveal_strlit(".");
            assert(dot_ext@[0] == '.');
        }
        let mut s = self.folder_name();
        s.append("/");
        let sub = self.sub_folder_name();
        s.append(sub.as_str());
        s.append("/");
        let file = self.file_name(dot_ext.as_str());
        s.append(file.as_str());
        proof {
            assert(s@ =~= gen_path_spec(self@, extension@));
        }
        s
    }

    /// A fresh value with the same contents.
    pub fn duplicate(&self) -> (r: BangumiInfo)
        ensures
            r@ == self@,
    {
        BangumiInfo {
            show_name: self.show_name.clone(),
            episode_name: match &self.episode_name {
                Some(s) => Some(s.clone()),
                None => None,
            },
            display_name: match &self.display_name {
                Some(s) => Some(s.clone()),
                None => None,
            },
            season: self.season,
            episode: self.episode,
            category: match &self.category {
                Some(s) => Some(s.clone()),
                None => None,
            },
        }
    }
}

/// Failures of the rename / link step, surfaced per task and never fatal.
#[derive(Clone, Copy, Debug, PartialEq, Eq, Structural)]
pub enum RenameError {
    /// The source path does not exist.
    NotFound,
    /// The source is not a regular file.
    UnsupportedType,
    /// The source file name carries no extension.
    MissingExtension,
}

/// The index of the dot introducing the extension of the final path
/// component, or `-1` when the component has no usable extension (no dot,
/// or only a dot opening a hidden file name).
pub open spec fn ext_dot(s: Seq<char>) -> int
    decreases s.len(),
{
    if s.len() == 0 {
        -1
    } else if s.last() == '/' {
        -1
    } else if s.last() == '.' {
        if s.len() >= 2 && s[s.len() - 2] != '/' {
            s.len() - 1
        } else {
            -1
        }
    } else {
        ext_dot(s.drop_last())
    }
}

/// The extension of the final path component, without its dot.
pub open spec fn extension_spec(s: Seq<char>) -> Option<Seq<char>> {
    if ext_dot(s) >= 0 {
        Some(s.subrange(ext_dot(s) + 1, s.len() as int))
    } else {
        None
    }
}

pub proof fn lemma_ext_dot_chars(s: Seq<char>)
    ensures
        ext_dot(s) >= 0 ==> {
            let d = ext_dot(s);
            &&& 0 <= d < s.len()
            &&& s[d] == '.'
            &&& forall|j: int| d < j < s.len() ==> s[j] != '.' && s[j] != '/'
        },
    decreases s.len(),
{
    if s.len() > 0 && s.last() != '/' && s.last() != '.' {
        lemma_ext_dot_chars(s.drop_last());
        if ext_dot(s) >= 0 {
            let d = ext_dot(s);
            assert(s.drop_last()[d] == s[d]);
            assert forall|j: int| d < j < s.len() implies s[j] != '.' && s[j] != '/' by {
                if j < s.len() - 1 {
                    assert(s.drop_last()[j] == s[j]);
                }
            }
        }
    }
}

/// The extension of the final component of `path`, without its dot:
/// the characters after the last dot, provided no `/` follows it and the
/// dot does not open the component.
pub fn extension_of(path: &str) -> (r: Option<String>)
    ensures
        match r {
            Some(e) => extension_spec(path@) == Some(e@),
            None => extension_spec(path@) is None,
        },
{
    let len = path.unicode_len();
    let mut i = len;
    proof {
        assert(path@.subrange(0, len as int) =~= path@);
    }
    loop
        invariant
            i <= len,
            len == path@.len(),
            ext_dot(path@) == ext_dot(path@.subrange(0, i as int)),
        decreases i,
    {
        proof {
            assert(path@.subrange(0, i as int).len() == i as int);
        }
        if i == 0 {
            return None;
        }
        let c = path.get_char(i - 1);
        proof {
            assert(path@.subrange(0, i as int).last() == path@[i - 1]);
        }
        if c == '/' {
            return None;
        }
        if c == '.' {
            if i >= 2 {
                let p = path.get_char(i - 2);
                proof {
                    assert(path@.subrange(0, i as int)[i - 2] == path@[i - 2]);
                }
                if p != '/' {
                    let e = path.substring_char(i, len).to_owned();
                    proof {
                        assert(ext_dot(path@) == i - 1);
                        assert(e@ =~= path@.subrange(ext_dot(path@) + 1, path@.len() as int));
                    }
                    return Some(e);
                }
            }
            return None;
        }
        proof {
            assert(path@.subrange(0, i as int).drop_last() =~= path@.subrange(0, i - 1));
        }
        i = i - 1;
    }
}

/// `path` with the prefix `from` replaced by `to`; unchanged when `path`
/// does not start with `from`.
pub open spec fn replace_path_spec(path: Seq<char>, from: Seq<char>, to: Seq<char>) -> Seq<char> {
    if from.len() <= path.len() && path.subrange(0, from.len() as int) == from {
        to + path.skip(from.len() as int)
    } else {
        path
    }
}

/// Remaps the download agent's view of a path to the local view by
/// substituting the configured prefix.
pub fn replace_path(path: &str, from: &str, to: &str) -> (r: String)
    ensures
        r@ == replace_path_spec(path@, from@, to@),
{
    let plen = path.unicode_len();
    let flen = from.unicode_len();
    if flen > plen {
        return path.to_owned();
    }
    let mut i: usize = 0;
    while i < flen
        invariant
            0 <= i <= flen <= plen,
            plen == path@.len(),
            flen == from@.len(),
            forall|j: int| 0 <= j < i ==> path@[j] == from@[j],
        decreases flen - i,
    {
        if path.get_char(i) != from.get_char(i) {
            proof {
                assert(path@.subrange(0, flen as int)[i as int] != from@[i as int]);
            }
            return path.to_owned();
        }
        i = i + 1;
    }
    proof {
        assert(path@.subrange(0, flen as int) =~= from@);
    }
    let mut r = to.to_owned();
    r.append(path.substring_char(flen, plen));
    proof {
        assert(r@ =~= replace_path_spec(path@, from@, to@));
    }
    r
}

/// One node of the filesystem model: a regular file with an abstract
/// content identifier, or a directory.
#[derive(Clone, Copy, Debug, PartialEq, Eq, Structural)]
pub enum FsNode {
    File(u64),
    Directory,
}

pub open spec fn entries_map(s: Seq<(String, FsNode)>) -> Map<Seq<char>, FsNode>
    decreases s.len(),
{
    if s.len() == 0 {
        Map::empty()
    } else {
        entries_map(s.drop_last()).insert(s.last().0@, s.last().1)
    }
}

/// An explicit model of the part of the filesystem the pipeline touches:
/// a finite map from paths to nodes.  Hard links show up as two paths bound
/// to the same content identifier; directories on the way to a path are
/// kept implicit.
pub struct FileSystemModel {
    entries: Vec<(String, FsNode)>,
}

impl View for FileSystemModel {
    type V = Map<Seq<char>, FsNode>;

    closed spec fn view(&self) -> Map<Seq<char>, FsNode> {
        entries_map(self.entries@)
    }
}

proof fn lemma_entries_map_prefix(s: Seq<(String, FsNode)>, i: int, k: Seq<char>)
    requires
        0 <= i <= s.len(),
        forall|j: int| i <= j < s.len() ==> s[j].0@ != k,
    ensures
        entries_map(s).contains_key(k) == entries_map(s.subrange(0, i)).contains_key(k),
        entries_map(s).contains_key(k) ==> entries_map(s)[k] == entries_map(s.subrange(0, i))[k],
    decreases s.len() - i,
{
    if i < s.len() {
        assert(s.subrange(0, s.len() as int) =~= s);
        lemma_entries_map_prefix(s, i + 1, k);
        assert(s.subrange(0, i + 1).drop_last() =~= s.subrange(0, i));
        assert(s.subrange(0, i + 1).last() == s[i]);
    } else {
        assert(s.subrange(0, i) =~= s);
    }
}

/// What one link call does to the filesystem: an error and no change when
/// the source is missing or not a regular file, a silent no-op when the
/// destination already exists, and otherwise a second path bound to the
/// source's content.
pub open spec fn link_spec(m: Map<Seq<char>, FsNode>, src: Seq<char>, dst: Seq<char>) -> (Map<
    Seq<char>,
    FsNode,
>, Result<(), RenameError>) {
    if !m.contains_key(src) {
        (m, Err(RenameError::NotFound))
    } else if !(m[src] is File) {
        (m, Err(RenameError::UnsupportedType))
    } else if m.contains_key(dst) {
        (m, Ok(()))
    } else {
        (m.insert(dst, m[src]), Ok(()))
    }
}

/// Law: linking is idempotent.  A first successful link and a second call
/// with the same arguments both succeed, the second changes nothing, and
/// the destination holds the same content as the source whenever the
/// destination was fresh.
pub proof fn lemma_link_idempotent(m: Map<Seq<char>, FsNode>, src: Seq<char>, dst: Seq<char>)
    requires
        m.contains_key(src),
        m[src] is File,
    ensures
        ({
            let (m1, r1) = link_spec(m, src, dst);
            let (m2, r2) = link_spec(m1, src, dst);
            &&& r1 == Ok::<(), RenameError>(())
            &&& r2 == Ok::<(), RenameError>(())
            &&& m2 == m1
            &&& !m.contains_key(dst) ==> m1[dst] == m1[src]
        }),
{
}

impl FileSystemModel {
    /// The empty filesystem model.
    pub fn new() -> (r: FileSystemModel)
        ensures
            r@ == Map::<Seq<char>, FsNode>::empty(),
    {
        FileSystemModel { entries: Vec::new() }
    }

    /// Binds `path` to a regular file with content `content`.
    pub fn add_file(&mut self, path: &str, content: u64)
        ensures
            final(self)@ == old(self)@.insert(path@, FsNode::File(content)),
    {
        self.entries.push((path.to_owned(), FsNode::File(content)));
        proof {
            assert(self.entries@.drop_last() =~= old(self).entries@);
        }
    }

    /// Binds `path` to a directory.
    pub fn add_directory(&mut self, path: &str)
        ensures
            final(self)@ == old(self)@.insert(path@, FsNode::Directory),
    {
        self.entries.push((path.to_owned(), FsNode::Directory));
        proof {
            assert(self.entries@.drop_last() =~= old(self).entries@);
        }
    }

    /// The node bound to `path`, when there is one.
    pub fn node_at(&self, path: &str) -> (r: Option<FsNode>)
        ensures
            match r {
                Some(n) => self@.contains_key(path@) && self@[path@] == n,
                None => !self@.contains_key(path@),
            },
    {
        let mut i = self.entries.len();
        loop
            invariant
                i <= self.entries.len(),
                forall|j: int| i <= j < self.entries@.len() ==> self.entries@[j].0@ != path@,
            decreases i,
        {
            if i == 0 {
                proof {
                    lemma_entries_map_prefix(self.entries@, 0, path@);
                    assert(self.entries@.subrange(0, 0) =~= Seq::<(String, FsNode)>::empty());
                }
                return None;
            }
            let e = &self.entries[i - 1];
            if crate::strutil::str_eq(e.0.as_str(), path) {
                proof {
                    lemma_entries_map_prefix(self.entries@, i as int, path@);
                    assert(self.entries@.subrange(0, i as int).drop_last() =~= self.entries@
                        .subrange(0, i - 1));
                    assert(self.entries@.subrange(0, i as int).last() == self.entries@[i - 1]);
                }
                return Some(e.1);
            }
            i = i - 1;
        }
    }

    /// Creates a second directory entry for the content of `src_path` at
    /// `dst_path`; a no-op when the destination already exists.  Missing
    /// parent directories are treated as created implicitly.
    pub fn link(&mut self, src_path: &str, dst_path: &str) -> (r: Result<(), RenameError>)
        ensures
            final(self)@ == link_spec(old(self)@, src_path@, dst_path@).0,
            r == link_spec(old(self)@, src_path@, dst_path@).1,
    {
        match self.node_at(src_path) {
            None => Err(RenameError::NotFound),
            Some(FsNode::Directory) => Err(RenameError::UnsupportedType),
            Some(FsNode::File(content)) => {
                match self.node_at(dst_path) {
                    Some(_) => Ok(()),
                    None => {
                        self.add_file(dst_path, content);
                        Ok(())
                    },
                }
            },
        }
    }
}

/// What one rename call decides and does, as a function of the filesystem
/// and the inputs.
pub open spec fn rename_spec(
    m: Map<Seq<char>, FsNode>,
    meta: EpisodeMeta,
    src: Seq<char>,
    dst_folder: Seq<char>,
) -> (Map<Seq<char>, FsNode>, Result<(), RenameError>) {
    if !m.contains_key(src) {
        (m, Err(RenameError::NotFound))
    } else if !(m[src] is File) {
        (m, Err(RenameError::UnsupportedType))
    } else if extension_spec(src) is None {
        (m, Err(RenameError::MissingExtension))
    } else {
        link_spec(m, src, dst_folder + "/"@ + gen_path_spec(meta, extension_spec(src).unwrap()))
    }
}

/// Places the finished file below `dst_folder` under its canonical path:
/// `dst_folder/{show}/Season {n}/{file name}`, by linking.  Fails with
/// `NotFound` when the source is missing, `UnsupportedType` when it is not
/// a regular file, `MissingExtension` when its name has no extension; a
/// destination that already exists is a silent no-op.
pub fn rename(
    info: &BangumiInfo,
    src_path: &str,
    dst_folder: &str,
    fs: &mut FileSystemModel,
) -> (r: Result<(), RenameError>)
    ensures
        final(fs)@ == rename_spec(old(fs)@, info@, src_path@, dst_folder@).0,
        r == rename_spec(old(fs)@, info@, src_path@, dst_folder@).1,
{
    match fs.node_at(src_path) {
        None => Err(RenameError::NotFound),
        Some(FsNode::Directory) => Err(RenameError::UnsupportedType),
        Some(FsNode::File(_)) => {
            match extension_of(src_path) {
                None => Err(RenameError::MissingExtension),
                Some(ext) => {
                    proof {
                        lemma_ext_dot_chars(src_path@);
                        assert forall|i: int| 0 <= i < ext@.len() implies ext@[i] != '.' by {
                            assert(ext@[i] == src_path@[ext_dot(src_path@) + 1 + i]);
                        }
                    }
                    let rel = info.gen_path(ext.as_str());
                    let mut dst = dst_folder.to_owned();
                    dst.append("/");
                    dst.append(rel.as_str());
                    fs.link(src_path, dst.as_str())
                },
            }
        },
    }
}

} // verus!
