//! Rendering the albums into one HTML document.
use vstd::prelude::*;

use crate::album::{AlbumView, MediaEntry};
use crate::order::views;
use crate::paths::{
    file_name_of, file_name_spec, join_path, join_spec, strip_base, strip_prefix_of,
    StripPrefixError,
};

verus! {

/// The lines that open the document.
pub open spec fn head_lines() -> Seq<Seq<char>> {
    seq![
        "<!DOCTYPE html>"@,
        "<html>"@,
        "<head>"@,
        "<meta charset=\"utf-8\">"@,
        "<meta name=\"viewport\" content=\"width=device-width, initial-scale=1.0, maximum-scale=1.0, user-scalable=0\">"@,
        "<title>Video Index</title>"@,
        "</head>"@,
        "<body>"@,
    ]
}

/// The lines that close the document.
pub open spec fn tail_lines() -> Seq<Seq<char>> {
    seq!["</body>"@, "</html>"@]
}

/// The heading of the album in directory `dir`.
pub open spec fn heading_line(dir: Seq<char>) -> Seq<char> {
    "<h1>"@ + file_name_spec(dir) + "</h1>"@
}

/// The list item that shows the image at relative path `rel`.
pub open spec fn image_line(rel: Seq<char>) -> Seq<char> {
    "<li><img src=\""@ + rel + "\" height=\"250em\"></li>"@
}

/// The list item that links the video at relative path `rel`, named `name`.
pub open spec fn video_line(rel: Seq<char>, name: Seq<char>) -> Seq<char> {
    "<li><a href=\""@ + rel + "\">"@ + name + "</li>"@
}

/// The list items of the images `paths`, or `None` where one of them does not
/// lie under `base`.
pub open spec fn image_lines(paths: Seq<Seq<char>>, base: Seq<char>) -> Option<Seq<Seq<char>>>
    decreases paths.len(),
{
    if paths.len() == 0 {
        Some(seq![])
    } else {
        match (image_lines(paths.drop_last(), base), strip_prefix_of(paths.last(), base)) {
            (Some(ls), Some(rel)) => Some(ls.push(image_line(rel))),
            _ => None,
        }
    }
}

/// The list items of the videos `paths`, or `None` where one of them does not
/// lie under `base`.
pub open spec fn video_lines(paths: Seq<Seq<char>>, base: Seq<char>) -> Option<Seq<Seq<char>>>
    decreases paths.len(),
{
    if paths.len() == 0 {
        Some(seq![])
    } else {
        match (video_lines(paths.drop_last(), base), strip_prefix_of(paths.last(), base)) {
            (Some(ls), Some(rel)) => Some(ls.push(video_line(rel, file_name_spec(paths.last())))),
            _ => None,
        }
    }
}

/// The section of album `a`: its heading, then a list of its images followed
/// by its videos.
pub open spec fn album_lines(a: AlbumView, base: Seq<char>) -> Option<Seq<Seq<char>>> {
    match (image_lines(a.images, base), video_lines(a.videos, base)) {
        (Some(im), Some(vi)) => Some(
            seq![heading_line(a.dir), "<ul>"@] + im + vi + seq!["</ul>"@],
        ),
        _ => None,
    }
}

/// The sections of `albums`, one after the other.
pub open spec fn albums_lines(albums: Seq<AlbumView>, base: Seq<char>) -> Option<Seq<Seq<char>>>
    decreases albums.len(),
{
    if albums.len() == 0 {
        Some(seq![])
    } else {
        match (albums_lines(albums.drop_last(), base), album_lines(albums.last(), base)) {
            (Some(ls), Some(more)) => Some(ls + more),
            _ => None,
        }
    }
}

/// `lines` joined by newlines.
pub open spec fn join_lines(lines: Seq<Seq<char>>) -> Seq<char>
    decreases lines.len(),
{
    if lines.len() == 0 {
        seq![]
    } else if lines.len() == 1 {
        lines[0]
    } else {
        join_lines(lines.drop_last()) + seq!['\n'] + lines.last()
    }
}

/// The document for `albums`, or `None` where a media path does not lie under
/// `base`.
pub open spec fn page_spec(albums: Seq<AlbumView>, base: Seq<char>) -> Option<Seq<char>> {
    match albums_lines(albums, base) {
        Some(body) => Some(join_lines(head_lines() + body + tail_lines())),
        None => None,
    }
}

/// The views of a list of albums.
pub open spec fn album_views(albums: Seq<MediaEntry>) -> Seq<AlbumView> {
    albums.map_values(|a: MediaEntry| a@)
}

/// `a`, `b` and `c`, one after another.
fn concat3(a: &str, b: &str, c: &str) -> (r: String)
    ensures
        r@ == a@ + b@ + c@,
{
    let mut r = String::from_str(a);
    r.append(b);
    r.append(c);
    r
}

/// The list item that shows the image at relative path `rel`.
pub fn image_item(rel: &str) -> (r: String)
    ensures
        r@ == image_line(rel@),
{
    concat3("<li><img src=\"", rel, "\" height=\"250em\"></li>")
}

/// The list item that links the video at relative path `rel`, named `name`.
pub fn video_item(rel: &str, name: &str) -> (r: String)
    ensures
        r@ == video_line(rel@, name@),
{
    let mut line = concat3("<li><a href=\"", rel, "\">");
    line.append(name);
    line.append("</li>");
    line
}

/// Appends the list items of the images `paths` to `out`.
fn push_image_lines(out: &mut Vec<String>, paths: &Vec<String>, base: &str) -> (r: Result<
    (),
    StripPrefixError,
>)
    ensures
        match image_lines(views(paths@), base@) {
            Some(ls) => r is Ok && views(final(out)@) == views(old(out)@) + ls,
            None => r is Err,
        },
{
    let ghost start = views(out@);
    let mut i: usize = 0;
    while i < paths.len()
        invariant
            i <= paths.len(),
            image_lines(views(paths@.take(i as int)), base@) == Some(views(out@).skip(start.len() as int)),
            views(out@).take(start.len() as int) == start,
            start.len() <= out@.len(),
        decreases paths.len() - i,
    {
        assert(views(paths@.take(i + 1)).drop_last() =~= views(paths@.take(i as int)));
        let rel = strip_base(paths[i].as_str(), base);
        match rel {
            Ok(rel) => {
                let ghost prev = views(out@);
                out.push(image_item(rel.as_str()));
                assert(views(out@) =~= prev.push(image_line(rel@)));
                assert(views(out@).skip(start.len() as int) =~= prev.skip(start.len() as int).push(image_line(rel@)));
                assert(views(out@).take(start.len() as int) =~= prev.take(start.len() as int));
            },
            Err(e) => {
                assert(image_lines(views(paths@), base@) is None) by {
                    lemma_image_lines_prefix_none(views(paths@), (i + 1) as int, base@);
                    assert(views(paths@).take(i + 1) =~= views(paths@.take(i + 1)));
                }
                return Err(e);
            },
        }
        i = i + 1;
    }
    assert(paths@.take(paths.len() as int) =~= paths@);
    assert(views(out@) =~= start + views(out@).skip(start.len() as int));
    Ok(())
}

/// Appends the list items of the videos `paths` to `out`.
fn push_video_lines(out: &mut Vec<String>, paths: &Vec<String>, base: &str) -> (r: Result<
    (),
    StripPrefixError,
>)
    ensures
        match video_lines(views(paths@), base@) {
            Some(ls) => r is Ok && views(final(out)@) == views(old(out)@) + ls,
            None => r is Err,
        },
{
    let ghost start = views(out@);
    let mut i: usize = 0;
    while i < paths.len()
        invariant
            i <= paths.len(),
            video_lines(views(paths@.take(i as int)), base@) == Some(views(out@).skip(start.len() as int)),
            views(out@).take(start.len() as int) == start,
            start.len() <= out@.len(),
        decreases paths.len() - i,
    {
        assert(views(paths@.take(i + 1)).drop_last() =~= views(paths@.take(i as int)));
        let rel = strip_base(paths[i].as_str(), base);
        match rel {
            Ok(rel) => {
                let ghost prev = views(out@);
                let name = file_name_of(paths[i].as_str());
                out.push(video_item(rel.as_str(), name.as_str()));
                assert(views(out@) =~= prev.push(video_line(rel@, name@)));
                assert(views(out@).skip(start.len() as int) =~= prev.skip(start.len() as int).push(video_line(rel@, name@)));
                assert(views(out@).take(start.len() as int) =~= prev.take(start.len() as int));
            },
            Err(e) => {
                assert(video_lines(views(paths@), base@) is None) by {
                    lemma_video_lines_prefix_none(views(paths@), (i + 1) as int, base@);
                    assert(views(paths@).take(i + 1) =~= views(paths@.take(i + 1)));
                }
                return Err(e);
            },
        }
        i = i + 1;
    }
    assert(paths@.take(paths.len() as int) =~= paths@);
    assert(views(out@) =~= start + views(out@).skip(start.len() as int));
    Ok(())
}

/// Appends the section of album `a` to `out`.
fn push_album_lines(out: &mut Vec<String>, a: &MediaEntry, base: &str) -> (r: Result<
    (),
    StripPrefixError,
>)
    ensures
        match album_lines(a@, base@) {
            Some(ls) => r is Ok && views(final(out)@) == views(old(out)@) + ls,
            None => r is Err,
        },
{
    let ghost start = views(out@);
    let name = file_name_of(a.dir_path.as_str());
    out.push(concat3("<h1>", name.as_str(), "</h1>"));
    out.push(String::from_str("<ul>"));
    let ghost mid = views(out@);
    assert(mid =~= start + seq![heading_line(a@.dir), "<ul>"@]);
    push_image_lines(out, &a.images, base)?;
    let ghost mid2 = views(out@);
    push_video_lines(out, &a.videos, base)?;
    let ghost mid3 = views(out@);
    out.push(String::from_str("</ul>"));
    assert(views(out@) =~= mid3.push("</ul>"@));
    proof {
        let im = image_lines(a@.images, base@)->0;
        let vi = video_lines(a@.videos, base@)->0;
        assert(views(out@) =~= start + (seq![heading_line(a@.dir), "<ul>"@] + im + vi + seq!["</ul>"@]));
    }
    Ok(())
}

/// A failing prefix makes the whole list fail.
proof fn lemma_image_lines_prefix_none(paths: Seq<Seq<char>>, k: int, base: Seq<char>)
    requires
        0 <= k <= paths.len(),
        image_lines(paths.take(k), base) is None,
    ensures
        image_lines(paths, base) is None,
    decreases paths.len() - k,
{
    if k < paths.len() {
        assert(paths.take(k + 1).drop_last() =~= paths.take(k));
        lemma_image_lines_prefix_none(paths, k + 1, base);
    } else {
        assert(paths.take(k) =~= paths);
    }
}

/// `lines` joined by newlines.
pub fn join_lines_exec(lines: &Vec<String>) -> (r: String)
    ensures
        r@ == join_lines(views(lines@)),
{
    let mut r = String::new();
    let mut i: usize = 0;
    while i < lines.len()
        invariant
            i <= lines.len(),
            r@ == join_lines(views(lines@.take(i as int))),
        decreases lines.len() - i,
    {
        assert(views(lines@.take(i + 1)).drop_last() =~= views(lines@.take(i as int)));
        if i > 0 {
            r.append("\n");
            proof {
                reveal_strlit("\n");
                assert("\n"@ =~= seq!['\n']);
            }
        } else {
            assert(r@ =~= seq![]);
            assert(seq![] + lines@[0]@ =~= lines@[0]@);
        }
        r.append(lines[i].as_str());
        i = i + 1;
    }
    assert(lines@.take(lines.len() as int) =~= lines@);
    r
}

/// The HTML document that shows `albums`, in the order given, with every
/// media path written relative to `base`; an error where a media path does
/// not lie under `base`.
pub fn build_index_html(albums: &Vec<MediaEntry>, base: &str) -> (r: Result<String, StripPrefixError>)
    ensures
        match page_spec(album_views(albums@), base@) {
            Some(doc) => r is Ok && r->Ok_0@ == doc,
            None => r is Err,
        },
{
    let mut lines: Vec<String> = Vec::new();
    lines.push(String::from_str("<!DOCTYPE html>"));
    lines.push(String::from_str("<html>"));
    lines.push(String::from_str("<head>"));
    lines.push(String::from_str("<meta charset=\"utf-8\">"));
    lines.push(String::from_str("<meta name=\"viewport\" content=\"width=device-width, initial-scale=1.0, maximum-scale=1.0, user-scalable=0\">"));
    lines.push(String::from_str("<title>Video Index</title>"));
    lines.push(String::from_str("</head>"));
    lines.push(String::from_str("<body>"));
    let ghost head = views(lines@);
    assert(head =~= head_lines());
    let ghost all = album_views(albums@);
    let mut i: usize = 0;
    while i < albums.len()
        invariant
            i <= albums.len(),
            all == album_views(albums@),
            head == head_lines(),
            albums_lines(all.take(i as int), base@) == Some(views(lines@).skip(head.len() as int)),
            views(lines@).take(head.len() as int) == head,
            head.len() <= lines@.len(),
        decreases albums.len() - i,
    {
        assert(all.take(i + 1).drop_last() =~= all.take(i as int));
        let ghost prev = views(lines@);
        match push_album_lines(&mut lines, &albums[i], base) {
            Ok(()) => {
                assert(views(lines@).skip(head.len() as int) =~= prev.skip(head.len() as int) + album_lines(all[i as int], base@)->0);
                assert(views(lines@).take(head.len() as int) =~= prev.take(head.len() as int));
            },
            Err(e) => {
                proof {
                    lemma_albums_lines_prefix_none(all, (i + 1) as int, base@);
                }
                return Err(e);
            },
        }
        i = i + 1;
    }
    assert(all.take(albums.len() as int) =~= all);
    let ghost body = views(lines@).skip(head.len() as int);
    lines.push(String::from_str("</body>"));
    lines.push(String::from_str("</html>"));
    assert(views(lines@) =~= head_lines() + body + tail_lines());
    Ok(join_lines_exec(&lines))
}

/// The path of the document inside `base`.
pub open spec fn index_path_spec(base: Seq<char>) -> Seq<char> {
    join_spec(base, "index.html"@)
}

/// The path of the document inside `base`.
pub fn index_html_path(base: &str) -> (r: String)
    ensures
        r@ == index_path_spec(base@),
{
    join_path(base, "index.html")
}

/// A failing prefix of albums makes the whole document fail.
proof fn lemma_albums_lines_prefix_none(albums: Seq<AlbumView>, k: int, base: Seq<char>)
    requires
        0 <= k <= albums.len(),
        albums_lines(albums.take(k), base) is None,
    ensures
        albums_lines(albums, base) is None,
    decreases albums.len() - k,
{
    if k < albums.len() {
        assert(albums.take(k + 1).drop_last() =~= albums.take(k));
        lemma_albums_lines_prefix_none(albums, k + 1, base);
    } else {
        assert(albums.take(k) =~= albums);
    }
}

/// A failing prefix makes the whole list fail.
proof fn lemma_video_lines_prefix_none(paths: Seq<Seq<char>>, k: int, base: Seq<char>)
    requires
        0 <= k <= paths.len(),
        video_lines(paths.take(k), base) is None,
    ensures
        video_lines(paths, base) is None,
    decreases paths.len() - k,
{
    if k < paths.len() {
        assert(paths.take(k + 1).drop_last() =~= paths.take(k));
        lemma_video_lines_prefix_none(paths, k + 1, base);
    } else {
        assert(paths.take(k) =~= paths);
    }
}

} // verus!
