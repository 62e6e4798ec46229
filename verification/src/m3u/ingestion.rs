//! The choices made while songs are added to a playlist from a file, a
//! directory or an address.
//!
//! Looking at the disk and fetching from the network are left to the
//! caller. What is decided here: whether a source can be a song at all,
//! under which name the addition is reported, in which order the entries of
//! a directory are visited, and which files are passed over.

use crate::m3u::grammar::SongView;
use crate::m3u::Song;
use crate::text::{
    lemma_tail_run_len_unique, range_to_string, starts_with, tail_run_len, to_chars,
};
use vstd::prelude::*;
use vstd::relations::{sorted_by, total_ordering};
use vstd::seq_lib::lemma_sorted_unique;
use vstd::string::StringExecFns;

verus! {

/// `http://`
pub open spec fn http_scheme() -> Seq<char> {
    seq!['h', 't', 't', 'p', ':', '/', '/']
}

/// `https://`
pub open spec fn https_scheme() -> Seq<char> {
    seq!['h', 't', 't', 'p', 's', ':', '/', '/']
}

/// `ytdl://`
pub open spec fn ytdl_scheme() -> Seq<char> {
    seq!['y', 't', 'd', 'l', ':', '/', '/']
}

/// Whether `path` is an address: it starts with `http://`, `https://` or
/// `ytdl://`.
pub open spec fn is_url(path: Seq<char>) -> bool {
    ||| http_scheme().is_prefix_of(path)
    ||| https_scheme().is_prefix_of(path)
    ||| ytdl_scheme().is_prefix_of(path)
}

/// Whether `path` is an address.
pub fn looks_like_url(path: &str) -> (b: bool)
    ensures
        b == is_url(path@),
{
    let chars = to_chars(path);
    let mut scheme: Vec<char> = Vec::new();
    scheme.push('h');
    scheme.push('t');
    scheme.push('t');
    scheme.push('p');
    let mut http = scheme.clone();
    http.push(':');
    http.push('/');
    http.push('/');
    assert(http@ == http_scheme());
    let mut https = scheme;
    https.push('s');
    https.push(':');
    https.push('/');
    https.push('/');
    assert(https@ == https_scheme());
    let mut ytdl: Vec<char> = Vec::new();
    ytdl.push('y');
    ytdl.push('t');
    ytdl.push('d');
    ytdl.push('l');
    ytdl.push(':');
    ytdl.push('/');
    ytdl.push('/');
    assert(ytdl@ == ytdl_scheme());
    starts_with(&chars, 0, chars.len(), &http) || starts_with(&chars, 0, chars.len(), &https)
        || starts_with(&chars, 0, chars.len(), &ytdl)
}

/// Whether `path` cannot name a song: it is no address, and nothing is
/// found `on_disk` under it.
pub fn surely_invalid_path(path: &str, on_disk: bool) -> (b: bool)
    ensures
        b == (!on_disk && !is_url(path@)),
{
    !on_disk && !looks_like_url(path)
}

/// The name under which the addition of `path` is reported: what follows
/// its last `/`, where `/` at the end of `path` do not count.
pub open spec fn label_of(path: Seq<char>) -> Seq<char> {
    let stem = path.take(path.len() - tail_run_len(path, |c: char| c == '/'));
    stem.skip(stem.len() - tail_run_len(stem, |c: char| c != '/'))
}

/// The name under which the addition of `path` is reported.
pub fn source_label(path: &str) -> (label: String)
    ensures
        label@ == label_of(path@),
{
    let chars = to_chars(path);
    let mut end: usize = chars.len();
    while end > 0 && chars[end - 1] == '/'
        invariant
            end <= chars.len(),
            forall|i: int| end <= i < chars.len() ==> #[trigger] chars@[i] == '/',
        decreases end,
    {
        end -= 1;
    }
    let mut start: usize = end;
    while start > 0 && chars[start - 1] != '/'
        invariant
            start <= end <= chars.len(),
            forall|i: int| start <= i < end ==> #[trigger] chars@[i] != '/',
        decreases start,
    {
        start -= 1;
    }
    proof {
        let slash = |c: char| c == '/';
        let other = |c: char| c != '/';
        lemma_tail_run_len_unique(chars@, slash, chars@.len() - end);
        let stem = chars@.take(end as int);
        lemma_tail_run_len_unique(stem, other, end - start);
    }
    range_to_string(&chars, start, end)
}

/// What is known of a song from the path of a file alone: it is called as
/// the file is, and how long it lasts is not known.
pub open spec fn local_song(path: Seq<char>) -> SongView {
    SongView { title: label_of(path), duration: 0, path }
}

impl Song {
    /// The song at `path`, where `path` names a file. Of an address nothing
    /// is known before it has been asked, and there is no song yet.
    pub fn from_path(path: &str) -> (r: Option<Song>)
        ensures
            r is None <==> is_url(path@),
            r matches Some(song) ==> song@ == local_song(path@),
    {
        if looks_like_url(path) {
            None
        } else {
            Some(Song { title: source_label(path), duration: 0, path: String::from_str(path) })
        }
    }
}

/// The endings of the names of image files: `png`, `jpg`, `jpeg`, `webp`
/// and `svg`.
pub open spec fn image_extensions() -> Seq<Seq<char>> {
    seq![
        seq!['p', 'n', 'g'],
        seq!['j', 'p', 'g'],
        seq!['j', 'p', 'e', 'g'],
        seq!['w', 'e', 'b', 'p'],
        seq!['s', 'v', 'g'],
    ]
}

/// Whether `ext` stands in `path` right after a `.` and holds no `.` itself.
pub open spec fn follows_dot(path: Seq<char>, ext: Seq<char>) -> bool {
    &&& !ext.contains('.')
    &&& exists|i: int|
        0 < i && i + ext.len() <= path.len() && path[i - 1] == '.' && #[trigger] path.subrange(
            i,
            i + ext.len(),
        ) == ext
}

/// Whether `path` may name an image, as far as its text tells: one of the
/// endings of image files stands in it after a `.`.
pub open spec fn may_be_image(path: Seq<char>) -> bool {
    exists|ext: Seq<char>| #[trigger] image_extensions().contains(ext) && follows_dot(path, ext)
}

/// Whether `path` is a bare name: it holds none of `/`, `\` and `:`, by
/// which one system or another splits a path into parts, and it is not
/// `..`, which names the directory above. Every system takes the whole of a
/// bare name for the name of the file.
pub open spec fn is_bare_name(path: Seq<char>) -> bool {
    &&& !path.contains('/')
    &&& !path.contains('\\')
    &&& !path.contains(':')
    &&& path != seq!['.', '.']
}

/// The extension of a bare name: the text after its last `.`, where it has
/// a `.` and the last one is not its first character. A name that ends with
/// `.` has the empty text as its extension.
pub open spec fn bare_extension(name: Seq<char>) -> Option<Seq<char>> {
    let after = tail_run_len(name, |c: char| c != '.');
    if after == name.len() || after + 1 == name.len() {
        None
    } else {
        Some(name.skip(name.len() - after))
    }
}

/// The view of an extension that may be missing.
pub open spec fn extension_view(extension: Option<String>) -> Option<Seq<char>> {
    match extension {
        Some(ext) => Some(ext@),
        None => None,
    }
}

/// `std::path::Path::extension`, for a path given as text: the part of the
/// file's name after its last `.`, if the path has a file name with a `.`
/// that is not its first character. Which part of a path is the file's name
/// depends on the system, so of a path with `/`, `\` or `:` all that is
/// claimed is that the extension stands in the path after a `.` and holds
/// no `.`. A bare name is the file's name on every system, and of it the
/// extension is claimed exactly.
#[verifier::external_body]
fn extension_of(path: &str) -> (ext: Option<String>)
    ensures
        ext matches Some(e) ==> follows_dot(path@, e@),
        is_bare_name(path@) ==> extension_view(ext) == bare_extension(path@),
{
    let ext = std::path::Path::new(path).extension()?;
    Some(ext.to_str()?.to_owned())
}

/// Whether the two texts are the same.
fn same_text(a: &Vec<char>, b: &Vec<char>) -> (same: bool)
    ensures
        same == (a@ == b@),
{
    proof {
        assert(a@.subrange(0, a@.len() as int) == a@);
    }
    a.len() == b.len() && starts_with(a, 0, a.len(), b)
}

/// Whether `ext` is one of the endings of the names of image files.
pub fn is_image_extension(ext: &str) -> (b: bool)
    ensures
        b == image_extensions().contains(ext@),
{
    let chars = to_chars(ext);
    let mut png: Vec<char> = Vec::new();
    png.push('p');
    png.push('n');
    png.push('g');
    let mut jpg: Vec<char> = Vec::new();
    jpg.push('j');
    jpg.push('p');
    jpg.push('g');
    let mut jpeg: Vec<char> = Vec::new();
    jpeg.push('j');
    jpeg.push('p');
    jpeg.push('e');
    jpeg.push('g');
    let mut webp: Vec<char> = Vec::new();
    webp.push('w');
    webp.push('e');
    webp.push('b');
    webp.push('p');
    let mut svg: Vec<char> = Vec::new();
    svg.push('s');
    svg.push('v');
    svg.push('g');
    proof {
        let all = image_extensions();
        assert(all[0] == png@);
        assert(all[1] == jpg@);
        assert(all[2] == jpeg@);
        assert(all[3] == webp@);
        assert(all[4] == svg@);
    }
    same_text(&chars, &png) || same_text(&chars, &jpg) || same_text(&chars, &jpeg) || same_text(
        &chars,
        &webp,
    ) || same_text(&chars, &svg)
}

/// Whether a file is an image, by the extension of its name: it is one
/// where the name has an extension and that is one of the endings of the
/// names of image files.
pub open spec fn is_image(extension: Option<Seq<char>>) -> bool {
    extension matches Some(ext) && image_extensions().contains(ext)
}

/// Whether a file whose name has this `extension`, or none, is an image.
pub fn names_image(extension: Option<&str>) -> (b: bool)
    ensures
        b == is_image(
            match extension {
                Some(ext) => Some(ext@),
                None => None,
            },
        ),
{
    match extension {
        Some(ext) => is_image_extension(ext),
        None => false,
    }
}

/// Whether the file at `path` is taken for an image: what `names_image`
/// says of the extension that the system finds in `path`. Of a bare name
/// that is settled by the text: it is an image when what follows its last
/// `.` is `png`, `jpg`, `jpeg`, `webp` or `svg` and that `.` is not its
/// first character. Of any other path no more is settled than that an image
/// has one of these extensions in its path, after a `.`.
pub fn image_file(path: &str) -> (b: bool)
    ensures
        is_bare_name(path@) ==> b == is_image(bare_extension(path@)),
        b ==> may_be_image(path@),
{
    match extension_of(path) {
        Some(ext) => names_image(Some(ext.as_str())),
        None => names_image(None),
    }
}

/// What to do with a path that is visited.
#[derive(Debug, Clone, Copy, PartialEq, Eq)]
pub enum Visit {
    /// A directory: list it and visit its entries.
    Enter,
    /// Nothing to add: a directory reached through a link, or an image.
    Pass,
    /// A song to add.
    Add,
}

/// What to do with a path, given whether it is a directory, whether it is
/// a link, and the extension of its name. A directory is entered unless it
/// is reached through a link: such a directory is passed over, so that no
/// walk goes in circles. Of everything else all but images are added.
pub open spec fn visit_of(is_dir: bool, is_symlink: bool, extension: Option<Seq<char>>) -> Visit {
    if is_dir {
        if is_symlink {
            Visit::Pass
        } else {
            Visit::Enter
        }
    } else if extension matches Some(ext) && image_extensions().contains(ext) {
        Visit::Pass
    } else {
        Visit::Add
    }
}

/// Decides what to do with a path of which all that matters is known.
pub fn visit_with(is_dir: bool, is_symlink: bool, extension: Option<&str>) -> (v: Visit)
    ensures
        v == visit_of(
            is_dir,
            is_symlink,
            match extension {
                Some(ext) => Some(ext@),
                None => None,
            },
        ),
{
    if is_dir {
        if is_symlink {
            Visit::Pass
        } else {
            Visit::Enter
        }
    } else {
        match extension {
            Some(ext) => if is_image_extension(ext) {
                Visit::Pass
            } else {
                Visit::Add
            },
            None => Visit::Add,
        }
    }
}

/// Decides what to do with `path`, given whether it `is_dir` and whether it
/// `is_symlink`: what `visit_with` decides for the extension that the
/// system finds in `path`. For a directory, and for a bare name, that is
/// settled by what is given. A file with any other path is added or passed
/// over, and it is passed over only where an image extension stands in its
/// path after a `.`.
pub fn visit(path: &str, is_dir: bool, is_symlink: bool) -> (v: Visit)
    ensures
        is_dir ==> v == visit_of(is_dir, is_symlink, None),
        is_bare_name(path@) ==> v == visit_of(is_dir, is_symlink, bare_extension(path@)),
        !is_dir ==> v != Visit::Enter,
        !is_dir && v == Visit::Pass ==> may_be_image(path@),
{
    match extension_of(path) {
        Some(ext) => visit_with(is_dir, is_symlink, Some(ext.as_str())),
        None => visit_with(is_dir, is_symlink, None),
    }
}

/// Whether `a` comes before `b`, or is `b`, in the order of a dictionary
/// whose letters are ordered by their code points.
pub open spec fn precedes(a: Seq<char>, b: Seq<char>) -> bool
    decreases a.len(),
{
    if a.len() == 0 {
        true
    } else if b.len() == 0 {
        false
    } else if a[0] != b[0] {
        (a[0] as u32) < (b[0] as u32)
    } else {
        precedes(a.drop_first(), b.drop_first())
    }
}

/// Every text precedes itself.
proof fn lemma_precedes_reflexive(a: Seq<char>)
    ensures
        precedes(a, a),
    decreases a.len(),
{
    if a.len() > 0 {
        lemma_precedes_reflexive(a.drop_first());
    }
}

/// Two texts that precede each other are the same text.
proof fn lemma_precedes_antisymmetric(a: Seq<char>, b: Seq<char>)
    requires
        precedes(a, b),
        precedes(b, a),
    ensures
        a == b,
    decreases a.len(),
{
    if a.len() > 0 && b.len() > 0 {
        lemma_precedes_antisymmetric(a.drop_first(), b.drop_first());
        assert(a == seq![a[0]] + a.drop_first());
    }
}

/// What precedes a text precedes all that the text precedes.
proof fn lemma_precedes_transitive(a: Seq<char>, b: Seq<char>, c: Seq<char>)
    requires
        precedes(a, b),
        precedes(b, c),
    ensures
        precedes(a, c),
    decreases a.len(),
{
    if a.len() > 0 && b.len() > 0 && c.len() > 0 {
        if a[0] == b[0] && b[0] == c[0] {
            lemma_precedes_transitive(a.drop_first(), b.drop_first(), c.drop_first());
        }
    }
}

/// Of two texts one precedes the other.
proof fn lemma_precedes_total(a: Seq<char>, b: Seq<char>)
    ensures
        precedes(a, b) || precedes(b, a),
    decreases a.len(),
{
    if a.len() > 0 && b.len() > 0 {
        if a[0] == b[0] {
            lemma_precedes_total(a.drop_first(), b.drop_first());
        } else {
            vstd::utf8::char_u32_cast(a[0], a[0] as u32);
            vstd::utf8::char_u32_cast(b[0], b[0] as u32);
        }
    }
}

/// `precedes` orders all texts in one line.
pub proof fn lemma_precedes_orders()
    ensures
        total_ordering(|a: Seq<char>, b: Seq<char>| precedes(a, b)),
{
    let r = |a: Seq<char>, b: Seq<char>| precedes(a, b);
    assert forall|a: Seq<char>| #[trigger] r(a, a) by {
        lemma_precedes_reflexive(a);
    }
    assert forall|a: Seq<char>, b: Seq<char>| #[trigger] r(a, b) && #[trigger] r(b, a) implies a
        == b by {
        lemma_precedes_antisymmetric(a, b);
    }
    assert forall|a: Seq<char>, b: Seq<char>, c: Seq<char>| #[trigger] r(a, b) && #[trigger] r(
        b,
        c,
    ) implies r(a, c) by {
        lemma_precedes_transitive(a, b, c);
    }
    assert forall|a: Seq<char>, b: Seq<char>| #[trigger] r(a, b) || #[trigger] r(b, a) by {
        lemma_precedes_total(a, b);
    }
}

/// The entries of a directory in the order in which they are visited.
pub open spec fn visiting_order(entries: Seq<Seq<char>>) -> Seq<Seq<char>> {
    entries.sort_by(|a: Seq<char>, b: Seq<char>| precedes(a, b))
}

/// The order in which the entries of a directory are visited depends on
/// which entries there are and on nothing else: however the same entries are
/// listed, they are visited in the same order.
pub proof fn lemma_visiting_order_is_fixed(first: Seq<Seq<char>>, second: Seq<Seq<char>>)
    requires
        first.to_multiset() == second.to_multiset(),
    ensures
        visiting_order(first) == visiting_order(second),
{
    let r = |a: Seq<char>, b: Seq<char>| precedes(a, b);
    lemma_precedes_orders();
    first.lemma_sort_by_ensures(r);
    second.lemma_sort_by_ensures(r);
    lemma_sorted_unique(first.sort_by(r), second.sort_by(r), r);
}

/// The paths that a walk comes to and does not enter, in the order in which
/// it comes to them. The walk starts with the paths of `queue`, the first
/// one first. `listing` tells of each path whether it is a directory to
/// enter, and with which entries. The walk visits `steps` paths at most.
pub open spec fn walk(
    queue: Seq<Seq<char>>,
    listing: spec_fn(Seq<char>) -> Option<Seq<Seq<char>>>,
    steps: nat,
) -> Seq<Seq<char>>
    decreases steps,
{
    if steps == 0 || queue.len() == 0 {
        Seq::empty()
    } else {
        match listing(queue[0]) {
            Some(entries) => walk(
                visiting_order(entries) + queue.skip(1),
                listing,
                (steps - 1) as nat,
            ),
            None => seq![queue[0]] + walk(queue.skip(1), listing, (steps - 1) as nat),
        }
    }
}

/// Two listings that hold the same directories, each with the same entries,
/// in whatever order.
pub open spec fn same_tree(
    first: spec_fn(Seq<char>) -> Option<Seq<Seq<char>>>,
    second: spec_fn(Seq<char>) -> Option<Seq<Seq<char>>>,
) -> bool {
    forall|path: Seq<char>|
        match (#[trigger] first(path), #[trigger] second(path)) {
            (Some(a), Some(b)) => a.to_multiset() == b.to_multiset(),
            (None, None) => true,
            _ => false,
        }
}

/// Two walks over the same tree come to the same paths in the same order,
/// however the system lists the entries of each directory: what is added to
/// a playlist, and in which order, depends on the tree alone.
pub proof fn lemma_walk_is_fixed(
    queue: Seq<Seq<char>>,
    first: spec_fn(Seq<char>) -> Option<Seq<Seq<char>>>,
    second: spec_fn(Seq<char>) -> Option<Seq<Seq<char>>>,
    steps: nat,
)
    requires
        same_tree(first, second),
    ensures
        walk(queue, first, steps) == walk(queue, second, steps),
    decreases steps,
{
    if steps > 0 && queue.len() > 0 {
        let path = queue[0];
        let rest = queue.skip(1);
        let left = (steps - 1) as nat;
        match (first(path), second(path)) {
            (Some(a), Some(b)) => {
                lemma_visiting_order_is_fixed(a, b);
                lemma_walk_is_fixed(visiting_order(a) + rest, first, second, left);
            },
            (None, None) => {
                lemma_walk_is_fixed(rest, first, second, left);
            },
            _ => {},
        }
    }
}

/// `slice::sort` of the standard library, on strings: afterwards the vector
/// holds the strings that it held, each as often as before, and each of
/// them `precedes` all that stand after it. Strings are ordered by their
/// bytes, which is the order of their code points.
#[verifier::external_body]
fn sort_paths(paths: &mut Vec<String>)
    ensures
        sorted_by(final(paths).deep_view(), |a: Seq<char>, b: Seq<char>| precedes(a, b)),
        final(paths).deep_view().to_multiset() == old(paths).deep_view().to_multiset(),
{
    paths.sort();
}

/// The addition of one source to a playlist, while it is under way.
pub struct Ingestion {
    playlist: String,
    label: String,
    pending: Vec<String>,
}

/// The news that a source has been added to a playlist.
#[derive(Debug, Clone)]
pub struct SongAdded {
    pub playlist: String,
    pub song: String,
}

/// Why a source is not added.
#[derive(Debug, Clone, Copy, PartialEq, Eq)]
pub enum IngestError {
    /// The source is no address, and no file or directory either.
    ImplausibleSource,
}

impl Ingestion {
    /// The playlist that is added to.
    pub closed spec fn playlist(&self) -> Seq<char> {
        self.playlist@
    }

    /// The name under which the addition is reported.
    pub closed spec fn label(&self) -> Seq<char> {
        self.label@
    }

    /// The paths that are still to be visited, the next one first.
    pub closed spec fn queue(&self) -> Seq<Seq<char>> {
        self.pending.deep_view().reverse()
    }

    /// The next path to visit, if there is one left.
    pub fn next_path(&mut self) -> (path: Option<String>)
        ensures
            final(self).playlist() == old(self).playlist(),
            final(self).label() == old(self).label(),
            old(self).queue().len() == 0 ==> path is None && final(self).queue() == old(
                self
            ).queue(),
            old(self).queue().len() > 0 ==> (path matches Some(p) && p@ == old(self).queue()[0]
                && final(self).queue() == old(self).queue().skip(1)),
    {
        self.pending.pop()
    }

    /// Puts the `entries` of a directory before the paths that are still to
    /// be visited, in their visiting order.
    pub fn enter_directory(&mut self, entries: Vec<String>)
        ensures
            final(self).playlist() == old(self).playlist(),
            final(self).label() == old(self).label(),
            final(self).queue() == visiting_order(entries.deep_view()) + old(self).queue(),
    {
        let mut sorted = entries;
        sort_paths(&mut sorted);
        let ghost order = sorted.deep_view();
        proof {
            let r = |a: Seq<char>, b: Seq<char>| precedes(a, b);
            lemma_precedes_orders();
            entries.deep_view().lemma_sort_by_ensures(r);
            lemma_sorted_unique(order, visiting_order(entries.deep_view()), r);
        }
        let ghost before = self.pending.deep_view();
        while sorted.len() > 0
            invariant
                self.playlist == old(self).playlist,
                self.label == old(self).label,
                sorted.len() <= order.len(),
                sorted.deep_view() == order.take(sorted.len() as int),
                self.pending.deep_view() == before + order.skip(sorted.len() as int).reverse(),
            decreases sorted.len(),
        {
            let ghost pending = self.pending.deep_view();
            let ghost left = sorted.deep_view();
            let ghost raw = sorted@;
            let entry = sorted.pop();
            match entry {
                Some(path) => {
                    self.pending.push(path);
                    proof {
                        let n = sorted.len() as int;
                        assert(self.pending.deep_view() == pending.push(path@));
                        assert(left[n] == raw[n].deep_view());
                        assert(order.skip(n).reverse() == order.skip(n + 1).reverse().push(
                            order[n],
                        ));
                    }
                },
                None => {},
            }
        }
    }

    /// The news to send once nothing is left to visit.
    pub fn finish(self) -> (event: SongAdded)
        ensures
            event.playlist@ == self.playlist(),
            event.song@ == self.label(),
    {
        SongAdded { playlist: self.playlist, song: self.label }
    }
}

/// Starts the addition of `song_path` to `playlist`. A source that is no
/// address and is not found `on_disk` is refused. Else the addition will be
/// reported under the last part of `song_path`, and `song_path` is the one
/// path to visit.
pub fn add_song(playlist: &str, song_path: &str, on_disk: bool) -> (r: Result<
    Ingestion,
    IngestError,
>)
    ensures
        r is Err <==> !on_disk && !is_url(song_path@),
        r matches Ok(job) ==> (job.playlist() == playlist@ && job.label() == label_of(song_path@)
            && job.queue() == seq![song_path@]),
{
    if surely_invalid_path(song_path, on_disk) {
        return Err(IngestError::ImplausibleSource);
    }
    let mut pending: Vec<String> = Vec::new();
    pending.push(String::from_str(song_path));
    Ok(Ingestion { playlist: String::from_str(playlist), label: source_label(song_path), pending })
}

} // verus!
