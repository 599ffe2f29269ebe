//! Properties that hold of the library as a whole.
use vstd::multiset::Multiset;
use vstd::prelude::*;

use crate::album::{
    is_album_entry, is_album_of, is_sorted_of, is_visible_name, is_wanted, kind_of_extension, kind_spec, select_spec,
    sub_dirs_spec, AlbumView, ListedEntry, MediaKind, Wanted,
};
use crate::order::{chars_le, lemma_chars_le_antisymmetric, lemma_chars_le_reflexive, sorted};
use crate::page::{album_lines, heading_line, image_lines, page_spec, video_lines};
use crate::paths::{
    extension_spec, file_name_spec, join_spec, last_index, lemma_last_index_append, no_sep, sep,
    trim_end,
};

verus! {

broadcast use vstd::seq_lib::group_to_multiset_ensures;

/// `p` is `base` joined with the name of an album entry of `listing`.
pub open spec fn names_album_entry(base: Seq<char>, listing: Seq<ListedEntry>, p: Seq<char>) -> bool {
    exists|j: int|
        0 <= j < listing.len() && is_album_entry(#[trigger] listing[j]) && p == join_spec(
            base,
            listing[j].name->0@,
        )
}

/// Every album path is the base joined with the name of a listed directory
/// whose name is visible.
pub proof fn lemma_sub_dirs_are_visible(base: Seq<char>, listing: Seq<ListedEntry>)
    ensures
        forall|k: int|
            0 <= k < sub_dirs_spec(base, listing).len() ==> names_album_entry(
                base,
                listing,
                #[trigger] sub_dirs_spec(base, listing)[k],
            ),
    decreases listing.len(),
{
    if listing.len() > 0 {
        let prev = listing.drop_last();
        lemma_sub_dirs_are_visible(base, prev);
        let s = sub_dirs_spec(base, listing);
        assert forall|k: int| 0 <= k < s.len() implies names_album_entry(
            base,
            listing,
            #[trigger] s[k],
        ) by {
            if k < sub_dirs_spec(base, prev).len() {
                assert(s[k] == sub_dirs_spec(base, prev)[k]);
                assert(names_album_entry(base, prev, s[k]));
                let j = choose|j: int|
                    0 <= j < prev.len() && is_album_entry(#[trigger] prev[j]) && s[k] == join_spec(
                        base,
                        prev[j].name->0@,
                    );
                assert(listing[j] == prev[j]);
            } else {
                assert(listing[listing.len() - 1] == listing.last());
            }
        }
    }
}

/// Joining onto one directory tells names apart.
pub proof fn lemma_join_injective(base: Seq<char>, a: Seq<char>, b: Seq<char>)
    requires
        join_spec(base, a) == join_spec(base, b),
    ensures
        a == b,
{
    let n = join_spec(base, a).len() - a.len();
    assert(join_spec(base, a).skip(n) =~= a);
    assert(join_spec(base, b).skip(n) =~= b);
}

/// A directory whose name begins with a dot is never an album.
pub proof fn lemma_hidden_dir_excluded(base: Seq<char>, listing: Seq<ListedEntry>, name: Seq<char>)
    requires
        name.len() > 0,
        name[0] == '.',
    ensures
        !sub_dirs_spec(base, listing).contains(join_spec(base, name)),
{
    lemma_sub_dirs_are_visible(base, listing);
    if sub_dirs_spec(base, listing).contains(join_spec(base, name)) {
        let k = choose|k: int|
            0 <= k < sub_dirs_spec(base, listing).len() && sub_dirs_spec(base, listing)[k]
                == join_spec(base, name);
        assert(names_album_entry(base, listing, sub_dirs_spec(base, listing)[k]));
        let j = choose|j: int|
            0 <= j < listing.len() && is_album_entry(#[trigger] listing[j])
                && sub_dirs_spec(base, listing)[k] == join_spec(base, listing[j].name->0@);
        lemma_join_injective(base, name, listing[j].name->0@);
    }
}

/// The file name of a name joined onto a directory is that name, where the
/// name is free of separators and does not begin with a dot.
pub proof fn lemma_file_name_of_join(dir: Seq<char>, name: Seq<char>)
    requires
        is_visible_name(name),
        no_sep(name),
    ensures
        file_name_spec(join_spec(dir, name)) == name,
{
    let p = join_spec(dir, name);
    let pre = p.take(p.len() - name.len());
    assert(p =~= pre + name);
    assert(pre.len() == 0 || pre.last() == sep());
    assert(p.last() == name.last());
    if name.len() >= 2 {
        assert(p[p.len() - 2] == name[name.len() - 2]);
    }
    assert(trim_end(p) == p);
    lemma_last_index_append(pre, name, sep());
    assert(p.skip(pre.len() as int) =~= name);
    assert(name != seq!['.', '.']) by {
        if name == seq!['.', '.'] {
            assert(name[0] == '.');
        }
    }
}

/// Where the listed names are free of separators, as a directory's entries
/// are, every album's own name is visible: it is not empty and does not
/// begin with a dot.
pub proof fn lemma_album_names_visible(base: Seq<char>, listing: Seq<ListedEntry>)
    requires
        forall|j: int|
            0 <= j < listing.len() && (#[trigger] listing[j]).name is Some ==> no_sep(
                listing[j].name->0@,
            ),
    ensures
        forall|k: int|
            0 <= k < sub_dirs_spec(base, listing).len() ==> is_visible_name(
                file_name_spec(#[trigger] sub_dirs_spec(base, listing)[k]),
            ),
{
    lemma_sub_dirs_are_visible(base, listing);
    assert forall|k: int| 0 <= k < sub_dirs_spec(base, listing).len() implies is_visible_name(
        file_name_spec(#[trigger] sub_dirs_spec(base, listing)[k]),
    ) by {
        assert(names_album_entry(base, listing, sub_dirs_spec(base, listing)[k]));
        let j = choose|j: int|
            0 <= j < listing.len() && is_album_entry(#[trigger] listing[j])
                && sub_dirs_spec(base, listing)[k] == join_spec(base, listing[j].name->0@);
        lemma_file_name_of_join(base, listing[j].name->0@);
    }
}

/// A file named `stem.ext`, with an extension without dots, is classified by
/// `ext` alone, matched exactly.
pub proof fn lemma_kind_by_extension(stem: Seq<char>, ext: Seq<char>)
    requires
        forall|j: int| 0 <= j < ext.len() ==> ext[j] != '.',
    ensures
        kind_spec(stem + seq!['.'] + ext) == kind_of_extension(Some(ext)),
{
    let name = stem + seq!['.'] + ext;
    lemma_last_index_append(stem + seq!['.'], ext, '.');
    assert((stem + seq!['.']).drop_last() =~= stem);
    assert(last_index(name, '.') == stem.len());
    assert(name.skip(stem.len() as int + 1) =~= ext);
    assert(extension_spec(name) == Some(ext));
}

/// Two sorted lists that hold the same strings, each as often, are equal.
pub proof fn lemma_sorted_unique(a: Seq<Seq<char>>, b: Seq<Seq<char>>)
    requires
        sorted(a),
        sorted(b),
        a.to_multiset() == b.to_multiset(),
    ensures
        a == b,
    decreases a.len(),
{
    vstd::seq_lib::to_multiset_len(a);
    vstd::seq_lib::to_multiset_len(b);
    if a.len() == 0 {
        assert(b.len() == 0);
        assert(a =~= b);
    } else {
        assert(b.len() == a.len());
        assert(a.to_multiset().count(a[0]) > 0);
        assert(b.contains(a[0]));
        let j = choose|j: int| 0 <= j < b.len() && b[j] == a[0];
        assert(chars_le(b[0], a[0])) by {
            lemma_chars_le_reflexive(a[0]);
        }
        assert(b.to_multiset().count(b[0]) > 0);
        assert(a.contains(b[0]));
        let i = choose|i: int| 0 <= i < a.len() && a[i] == b[0];
        assert(chars_le(a[0], b[0])) by {
            lemma_chars_le_reflexive(b[0]);
        }
        lemma_chars_le_antisymmetric(a[0], b[0]);
        vstd::seq_lib::to_multiset_remove(a, 0);
        vstd::seq_lib::to_multiset_remove(b, 0);
        assert(a.remove(0) =~= a.drop_first());
        assert(b.remove(0) =~= b.drop_first());
        lemma_sorted_unique(a.drop_first(), b.drop_first());
        assert(a =~= seq![a[0]] + a.drop_first());
        assert(b =~= seq![b[0]] + b.drop_first());
    }
}

/// What entry `e` adds to the wanted paths inside `dir`.
pub open spec fn added(dir: Seq<char>, e: ListedEntry, w: Wanted) -> Multiset<Seq<char>> {
    if is_wanted(e, w) {
        Multiset::singleton(join_spec(dir, e.name->0@))
    } else {
        Multiset::empty()
    }
}

proof fn lemma_select_last(dir: Seq<char>, l: Seq<ListedEntry>, w: Wanted)
    requires
        l.len() > 0,
    ensures
        select_spec(dir, l, w).to_multiset() == select_spec(dir, l.drop_last(), w).to_multiset().add(
            added(dir, l.last(), w),
        ),
{
    let m = select_spec(dir, l.drop_last(), w).to_multiset();
    if is_wanted(l.last(), w) {
        assert(m.insert(join_spec(dir, l.last().name->0@)) =~= m.add(added(dir, l.last(), w)));
    } else {
        assert(m =~= m.add(added(dir, l.last(), w)));
    }
}

proof fn lemma_select_remove(dir: Seq<char>, l: Seq<ListedEntry>, j: int, w: Wanted)
    requires
        0 <= j < l.len(),
    ensures
        select_spec(dir, l, w).to_multiset() == select_spec(dir, l.remove(j), w).to_multiset().add(
            added(dir, l[j], w),
        ),
    decreases l.len(),
{
    lemma_select_last(dir, l, w);
    if j == l.len() - 1 {
        assert(l.remove(j) =~= l.drop_last());
    } else {
        lemma_select_remove(dir, l.drop_last(), j, w);
        let r = l.remove(j);
        assert(r.drop_last() =~= l.drop_last().remove(j));
        assert(r.last() == l.last());
        lemma_select_last(dir, r, w);
        let m = select_spec(dir, r.drop_last(), w).to_multiset();
        assert(m.add(added(dir, l[j], w)).add(added(dir, l.last(), w)) =~= m.add(
            added(dir, l.last(), w),
        ).add(added(dir, l[j], w)));
    }
}

/// Listings that hold the same entries, in whatever order, give the same
/// wanted paths, each as often.
pub proof fn lemma_listing_order(dir: Seq<char>, l1: Seq<ListedEntry>, l2: Seq<ListedEntry>, w: Wanted)
    requires
        l1.to_multiset() == l2.to_multiset(),
    ensures
        select_spec(dir, l1, w).to_multiset() == select_spec(dir, l2, w).to_multiset(),
    decreases l1.len(),
{
    vstd::seq_lib::to_multiset_len(l1);
    vstd::seq_lib::to_multiset_len(l2);
    if l1.len() == 0 {
        assert(l2.len() == 0);
        assert(l1 =~= l2);
    } else {
        let x = l1.last();
        assert(l1.to_multiset().count(x) > 0) by {
            assert(l1.contains(x)) by {
                assert(l1[l1.len() - 1] == x);
            }
        }
        assert(l2.contains(x));
        let j = choose|j: int| 0 <= j < l2.len() && l2[j] == x;
        vstd::seq_lib::to_multiset_remove(l2, j);
        assert(l1.drop_last().push(x) =~= l1);
        vstd::seq_lib::to_multiset_build(l1.drop_last(), x);
        assert(l1.drop_last().to_multiset() =~= l1.to_multiset().remove(x));
        lemma_listing_order(dir, l1.drop_last(), l2.remove(j), w);
        lemma_select_last(dir, l1, w);
        lemma_select_remove(dir, l2, j, w);
    }
}

/// An album is determined by its directory and the entries of that
/// directory's listing: the order in which the listing gives them does not
/// matter.
pub proof fn lemma_album_determined(
    a1: AlbumView,
    a2: AlbumView,
    dir: Seq<char>,
    l1: Seq<ListedEntry>,
    l2: Seq<ListedEntry>,
)
    requires
        is_album_of(a1, dir, l1),
        is_album_of(a2, dir, l2),
        l1.to_multiset() == l2.to_multiset(),
    ensures
        a1 == a2,
{
    lemma_listing_order(dir, l1, l2, Wanted::Files(MediaKind::Image));
    lemma_listing_order(dir, l1, l2, Wanted::Files(MediaKind::Video));
    lemma_sorted_unique(a1.images, a2.images);
    lemma_sorted_unique(a1.videos, a2.videos);
}

/// Running twice on an unchanged tree gives the same document, byte for
/// byte, whatever order the directory listings come in: the base directory's
/// two listings hold the same entries, the albums are its sorted album
/// directories, and the two listings of one album directory hold the same
/// entries.
pub proof fn lemma_page_idempotent(
    base: Seq<char>,
    b1: Seq<ListedEntry>,
    b2: Seq<ListedEntry>,
    dirs1: Seq<Seq<char>>,
    dirs2: Seq<Seq<char>>,
    listings1: Seq<Seq<ListedEntry>>,
    listings2: Seq<Seq<ListedEntry>>,
    s1: Seq<AlbumView>,
    s2: Seq<AlbumView>,
)
    requires
        b1.to_multiset() == b2.to_multiset(),
        is_sorted_of(dirs1, sub_dirs_spec(base, b1)),
        is_sorted_of(dirs2, sub_dirs_spec(base, b2)),
        s1.len() == dirs1.len() == listings1.len(),
        s2.len() == dirs2.len() == listings2.len(),
        forall|i: int| 0 <= i < s1.len() ==> is_album_of(#[trigger] s1[i], dirs1[i], listings1[i]),
        forall|i: int| 0 <= i < s2.len() ==> is_album_of(#[trigger] s2[i], dirs2[i], listings2[i]),
        forall|i: int, k: int|
            0 <= i < dirs1.len() && 0 <= k < dirs2.len() && dirs1[i] == dirs2[k]
                ==> (#[trigger] listings1[i]).to_multiset() == (#[trigger] listings2[k]).to_multiset(),
    ensures
        page_spec(s1, base) == page_spec(s2, base),
{
    lemma_listing_order(base, b1, b2, Wanted::Albums);
    lemma_sorted_unique(dirs1, dirs2);
    assert forall|i: int| 0 <= i < s1.len() implies s1[i] == s2[i] by {
        lemma_album_determined(s1[i], s2[i], dirs1[i], listings1[i], listings2[i]);
    }
    assert(s1 =~= s2);
}

/// An album with no images and no videos still has its heading and an empty
/// list.
pub proof fn lemma_empty_album(a: AlbumView, base: Seq<char>)
    requires
        a.images.len() == 0,
        a.videos.len() == 0,
    ensures
        album_lines(a, base) == Some(seq![heading_line(a.dir), "<ul>"@, "</ul>"@]),
{
    assert(image_lines(a.images, base) == Some(Seq::<Seq<char>>::empty()));
    assert(video_lines(a.videos, base) == Some(Seq::<Seq<char>>::empty()));
    assert(seq![heading_line(a.dir), "<ul>"@] + Seq::<Seq<char>>::empty() + Seq::<Seq<char>>::empty()
        + seq!["</ul>"@] =~= seq![heading_line(a.dir), "<ul>"@, "</ul>"@]);
}

} // verus!
