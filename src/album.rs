//! Picking albums out of a directory listing, and classifying an album's
//! files into images and videos.
use vstd::prelude::*;

use crate::order::{sort_paths, sorted, views};
use crate::paths::{extension_of, extension_spec, join_path, join_spec, same_chars};

verus! {

broadcast use vstd::seq_lib::group_to_multiset_ensures;

/// One child of a listed directory: its name, where it is valid text, and
/// whether it is a directory.
#[derive(Debug, Clone)]
pub struct ListedEntry {
    pub name: Option<String>,
    pub is_dir: bool,
}

/// What a file holds, going by its extension.
#[derive(Debug, Clone, Copy, PartialEq, Eq, Structural)]
pub enum MediaKind {
    Image,
    Video,
    Other,
}

/// An album: its directory and the paths of its images and videos, each
/// list in order.
#[derive(Debug, Clone)]
pub struct MediaEntry {
    pub dir_path: String,
    pub images: Vec<String>,
    pub videos: Vec<String>,
}

/// What an album holds, as character sequences.
pub struct AlbumView {
    pub dir: Seq<char>,
    pub images: Seq<Seq<char>>,
    pub videos: Seq<Seq<char>>,
}

impl View for MediaEntry {
    type V = AlbumView;

    open spec fn view(&self) -> AlbumView {
        AlbumView { dir: self.dir_path@, images: views(self.images@), videos: views(self.videos@) }
    }
}

/// A name that may stand for an album: not empty and not hidden.
pub open spec fn is_visible_name(name: Seq<char>) -> bool {
    name.len() > 0 && name[0] != '.'
}

/// The kind of file that an extension marks; the match is exact and minds case.
pub open spec fn kind_of_extension(ext: Option<Seq<char>>) -> MediaKind {
    match ext {
        Some(e) => if e == seq!['j', 'p', 'g'] || e == seq!['j', 'p', 'e', 'g'] || e == seq![
            'p',
            'n',
            'g',
        ] {
            MediaKind::Image
        } else if e == seq!['m', 'p', '4'] {
            MediaKind::Video
        } else {
            MediaKind::Other
        },
        None => MediaKind::Other,
    }
}

/// The kind of the file named `name`.
pub open spec fn kind_spec(name: Seq<char>) -> MediaKind {
    kind_of_extension(extension_spec(name))
}

/// A listed entry that is an album: a directory whose name is valid text and
/// visible.
pub open spec fn is_album_entry(e: ListedEntry) -> bool {
    e.is_dir && e.name is Some && is_visible_name(e.name->0@)
}

/// A listed entry that is a file of kind `kind`.
pub open spec fn is_media_of_kind(e: ListedEntry, kind: MediaKind) -> bool {
    !e.is_dir && e.name is Some && kind_spec(e.name->0@) == kind
}

/// Which entries of a listing are picked out: the albums, or the files of one
/// kind.
pub enum Wanted {
    Albums,
    Files(MediaKind),
}

/// Whether entry `e` is of the wanted sort.
pub open spec fn is_wanted(e: ListedEntry, w: Wanted) -> bool {
    match w {
        Wanted::Albums => is_album_entry(e),
        Wanted::Files(kind) => is_media_of_kind(e, kind),
    }
}

/// The paths, inside `dir`, of the wanted entries of `listing`, a listing of
/// `dir`, in listing order.
pub open spec fn select_spec(dir: Seq<char>, listing: Seq<ListedEntry>, w: Wanted) -> Seq<Seq<char>>
    decreases listing.len(),
{
    if listing.len() == 0 {
        seq![]
    } else {
        let rest = select_spec(dir, listing.drop_last(), w);
        let e = listing.last();
        if is_wanted(e, w) {
            rest.push(join_spec(dir, e.name->0@))
        } else {
            rest
        }
    }
}

/// The paths of the albums in `listing`, a listing of `base`, in listing order.
pub open spec fn sub_dirs_spec(base: Seq<char>, listing: Seq<ListedEntry>) -> Seq<Seq<char>> {
    select_spec(base, listing, Wanted::Albums)
}

/// The paths of the files of kind `kind` in `listing`, a listing of `dir`, in
/// listing order.
pub open spec fn media_spec(dir: Seq<char>, listing: Seq<ListedEntry>, kind: MediaKind) -> Seq<
    Seq<char>,
> {
    select_spec(dir, listing, Wanted::Files(kind))
}

/// `paths` holds the strings of `wanted`, each as often, in order.
pub open spec fn is_sorted_of(paths: Seq<Seq<char>>, wanted: Seq<Seq<char>>) -> bool {
    sorted(paths) && paths.to_multiset() == wanted.to_multiset()
}

/// `a` is the album of directory `dir`, whose listing is `listing`.
pub open spec fn is_album_of(a: AlbumView, dir: Seq<char>, listing: Seq<ListedEntry>) -> bool {
    &&& a.dir == dir
    &&& is_sorted_of(a.images, media_spec(dir, listing, MediaKind::Image))
    &&& is_sorted_of(a.videos, media_spec(dir, listing, MediaKind::Video))
}

/// Whether `name` may stand for an album.
pub fn is_visible_dir_name(name: &str) -> (r: bool)
    ensures
        r == is_visible_name(name@),
{
    let n = name.unicode_len();
    n > 0 && name.get_char(0) != '.'
}

/// The kind of the file named `name`.
pub fn media_kind(name: &str) -> (r: MediaKind)
    ensures
        r == kind_spec(name@),
{
    proof {
        reveal_strlit("jpg");
        reveal_strlit("jpeg");
        reveal_strlit("png");
        reveal_strlit("mp4");
        assert("jpg"@ =~= seq!['j', 'p', 'g']);
        assert("jpeg"@ =~= seq!['j', 'p', 'e', 'g']);
        assert("png"@ =~= seq!['p', 'n', 'g']);
        assert("mp4"@ =~= seq!['m', 'p', '4']);
    }
    match extension_of(name) {
        Some(e) => {
            if same_chars(e.as_str(), "jpg") || same_chars(e.as_str(), "jpeg") || same_chars(
                e.as_str(),
                "png",
            ) {
                MediaKind::Image
            } else if same_chars(e.as_str(), "mp4") {
                MediaKind::Video
            } else {
                MediaKind::Other
            }
        },
        None => MediaKind::Other,
    }
}

/// The paths of the albums in `listing`, the listing of `base`: its
/// directories whose names are valid text, not empty and not hidden.
pub fn get_sub_dirs(base: &str, listing: &Vec<ListedEntry>) -> (r: Vec<String>)
    ensures
        views(r@) == sub_dirs_spec(base@, listing@),
{
    let mut out: Vec<String> = Vec::new();
    let mut i: usize = 0;
    while i < listing.len()
        invariant
            i <= listing.len(),
            views(out@) == sub_dirs_spec(base@, listing@.take(i as int)),
        decreases listing.len() - i,
    {
        let e = &listing[i];
        assert(listing@.take(i + 1).drop_last() =~= listing@.take(i as int));
        let ghost prev = out@;
        if e.is_dir {
            if let Some(name) = &e.name {
                if is_visible_dir_name(name.as_str()) {
                    out.push(join_path(base, name.as_str()));
                    assert(views(out@) =~= views(prev).push(join_spec(base@, name@)));
                }
            }
        }
        i = i + 1;
    }
    assert(listing@.take(listing.len() as int) =~= listing@);
    out
}

/// The album directories of `base`, whose listing is `listing`, in the
/// order in which their sections appear on the page.
pub fn album_dirs(base: &str, listing: &Vec<ListedEntry>) -> (r: Vec<String>)
    ensures
        is_sorted_of(views(r@), sub_dirs_spec(base@, listing@)),
{
    sort_paths(&get_sub_dirs(base, listing))
}

/// The paths of the files of kind `kind` in `listing`, the listing of `dir`.
fn collect_media(dir: &str, listing: &Vec<ListedEntry>, kind: MediaKind) -> (r: Vec<String>)
    ensures
        views(r@) == media_spec(dir@, listing@, kind),
{
    let mut out: Vec<String> = Vec::new();
    let mut i: usize = 0;
    while i < listing.len()
        invariant
            i <= listing.len(),
            views(out@) == media_spec(dir@, listing@.take(i as int), kind),
        decreases listing.len() - i,
    {
        let e = &listing[i];
        assert(listing@.take(i + 1).drop_last() =~= listing@.take(i as int));
        let ghost prev = out@;
        if !e.is_dir {
            if let Some(name) = &e.name {
                if media_kind(name.as_str()) == kind {
                    out.push(join_path(dir, name.as_str()));
                    assert(views(out@) =~= views(prev).push(join_spec(dir@, name@)));
                }
            }
        }
        i = i + 1;
    }
    assert(listing@.take(listing.len() as int) =~= listing@);
    out
}

/// The album of directory `dir`, whose listing is `listing`: its files (not
/// its subdirectories) with an image or a video extension, each kind in order.
pub fn get_media_entry(dir: &str, listing: &Vec<ListedEntry>) -> (r: MediaEntry)
    ensures
        is_album_of(r@, dir@, listing@),
{
    let images = collect_media(dir, listing, MediaKind::Image);
    let videos = collect_media(dir, listing, MediaKind::Video);
    MediaEntry {
        dir_path: String::from_str(dir),
        images: sort_paths(&images),
        videos: sort_paths(&videos),
    }
}

} // verus!
