//! Where the files of a torrent are linked.

use vstd::prelude::*;

use crate::classifier::{distinct_episodes, ShowFile};
use crate::config::DirConfig;
use crate::parser::tvshow::{is_read_as, marked_name, takes_marker, EpisodeId};
use crate::path::{
    components_of, extension, extension_is_plain, extension_of, has_parent, is_absolute, join_path,
    joined_path, parent, parent_path, slashed, stem_is_read_back, stem_of,
};
use crate::pattern::{begins_with, regex_captures, FULL_ID_PAT};
use crate::text::{
    all_digits, decimal, decimal_text, ends_with, has_suffix, is_digit, is_free_of,
    lemma_two_digits_value, two_digits, two_digits_text, view_of,
};
use crate::tvdb::{MovieMeta, ShowMeta};
use crate::types::TorrentFile;

verus! {

/// A hard link to make: the file that exists, and the path of the link.
#[derive(Debug)]
pub struct Link {
    pub src: String,
    pub dst: String,
}

/// What a [`Link`] holds.
#[verifier::ext_equal]
pub struct LinkView {
    pub src: Seq<char>,
    pub dst: Seq<char>,
}

impl View for Link {
    type V = LinkView;

    open spec fn view(&self) -> LinkView {
        LinkView { src: self.src@, dst: self.dst@ }
    }
}

/// What a sequence of links holds.
pub open spec fn links_of(links: Seq<Link>) -> Seq<LinkView> {
    links.map_values(|l: Link| l@)
}

/// A year in parentheses.
pub open spec fn year_tag(year: u32) -> Seq<char> {
    "("@ + decimal(year as nat) + ")"@
}

/// A title followed by the release year, unless it already ends with it.
pub open spec fn titled_year(title: Seq<char>, year: Option<u32>) -> Seq<char> {
    match year {
        Some(y) => if has_suffix(title, year_tag(y)) {
            title
        } else {
            title + " "@ + year_tag(y)
        },
        None => title,
    }
}

/// The name of the directory for a show or a movie: the title, the release year
/// in parentheses and the IMDB ID in brackets.
pub open spec fn folder_of(
    title: Seq<char>,
    year: Option<u32>,
    imdb_id: Option<Seq<char>>,
) -> Seq<char> {
    match imdb_id {
        Some(id) => titled_year(title, year) + " ["@ + id + "]"@,
        None => titled_year(title, year),
    }
}

/// The extension of a file's name, empty where it has none.
pub open spec fn extension_or_empty_of(file: TorrentFile) -> Seq<char> {
    match extension_of(file.name@) {
        Some(ext) => ext,
        None => Seq::<char>::empty(),
    }
}

/// The name of the directory for a season.
pub open spec fn season_dir_of(season: u32) -> Seq<char> {
    "Season "@ + two_digits(season as nat)
}

/// The name of the link to an episode.
pub open spec fn episode_name_of(title: Seq<char>, id: EpisodeId, ext: Seq<char>) -> Seq<char> {
    title + " S"@ + two_digits(id.season as nat) + "E"@ + two_digits(id.episode as nat) + "."@
        + ext
}

/// Where an episode is linked, relative to the directory for shows.
pub open spec fn show_dest_of(meta: ShowMeta, file: ShowFile) -> Seq<char> {
    let folder = folder_of(meta.canonical_title@, meta.release_year, view_of(meta.imdb_id));
    joined_path(
        joined_path(folder, season_dir_of(file.episode_id.season)),
        episode_name_of(
            meta.canonical_title@,
            file.episode_id,
            extension_or_empty_of(file.file),
        ),
    )
}

/// Where a movie is linked, relative to the directory for movies.
pub open spec fn movie_dest_of(meta: MovieMeta, file: TorrentFile) -> Seq<char> {
    joined_path(
        folder_of(meta.canonical_title@, meta.release_year, view_of(meta.imdb_id)),
        meta.canonical_title@ + "."@ + extension_or_empty_of(file),
    )
}

/// The link for a file of a torrent.
pub open spec fn link_to(
    download_dir: Seq<char>,
    name: Seq<char>,
    base: Seq<char>,
    dest: Seq<char>,
) -> LinkView {
    LinkView { src: joined_path(download_dir, name), dst: joined_path(base, dest) }
}

/// The links for the files of a show.
pub open spec fn show_links_of(
    meta: ShowMeta,
    files: Seq<ShowFile>,
    download_dir: Seq<char>,
    shows: Seq<char>,
) -> Seq<LinkView> {
    files.map_values(
        |f: ShowFile| link_to(download_dir, f.file.name@, shows, show_dest_of(meta, f)),
    )
}

/// The links for the files of a movie.
pub open spec fn movie_links_of(
    meta: MovieMeta,
    files: Seq<TorrentFile>,
    download_dir: Seq<char>,
    movies: Seq<char>,
) -> Seq<LinkView> {
    files.map_values(
        |f: TorrentFile| link_to(download_dir, f.name@, movies, movie_dest_of(meta, f)),
    )
}

/// The links for files that keep the paths they have within the torrent.
pub open spec fn other_links_of(
    files: Seq<TorrentFile>,
    download_dir: Seq<char>,
    other: Seq<char>,
) -> Seq<LinkView> {
    files.map_values(|f: TorrentFile| link_to(download_dir, f.name@, other, f.name@))
}

/// The name of the directory for a show or a movie.
pub fn folder_name(title: &str, year: Option<u32>, imdb_id: Option<&str>) -> (r: String)
    ensures
        r@ == folder_of(title@, year, view_of(imdb_id)),
{
    let mut s = title.to_owned();
    if let Some(y) = year {
        let mut tag = "(".to_owned();
        tag.append(decimal_text(y as u64).as_str());
        tag.append(")");
        if !ends_with(s.as_str(), tag.as_str()) {
            s.append(" ");
            s.append(tag.as_str());
        }
    }
    if let Some(id) = imdb_id {
        s.append(" [");
        s.append(id);
        s.append("]");
    }
    s
}

/// The text behind an optional string.
fn borrowed(o: &Option<String>) -> (r: Option<&str>)
    ensures
        view_of(r) == view_of(*o),
{
    match o {
        Some(t) => Some(t.as_str()),
        None => None,
    }
}

/// The extension of a file's name, empty where it has none.
fn extension_or_empty(file: &TorrentFile) -> (r: String)
    ensures
        r@ == extension_or_empty_of(*file),
{
    match extension(file.name.as_str()) {
        Some(ext) => ext,
        None => String::new(),
    }
}

/// Where an episode is linked, relative to the directory for shows.
pub fn show_dest(meta: &ShowMeta, show_file: &ShowFile) -> (r: String)
    ensures
        r@ == show_dest_of(*meta, *show_file),
{
    let folder = folder_name(
        meta.canonical_title.as_str(),
        meta.release_year,
        borrowed(&meta.imdb_id),
    );
    let ext = extension_or_empty(&show_file.file);
    let season = two_digits_text(show_file.episode_id.season);
    let mut season_dir = "Season ".to_owned();
    season_dir.append(season.as_str());
    let mut filename = meta.canonical_title.clone();
    filename.append(" S");
    filename.append(season.as_str());
    filename.append("E");
    filename.append(two_digits_text(show_file.episode_id.episode).as_str());
    filename.append(".");
    filename.append(ext.as_str());
    let dir = join_path(folder.as_str(), season_dir.as_str());
    join_path(dir.as_str(), filename.as_str())
}

/// Where a movie is linked, relative to the directory for movies.
pub fn movie_dest(meta: &MovieMeta, file: &TorrentFile) -> (r: String)
    ensures
        r@ == movie_dest_of(*meta, *file),
{
    let folder = folder_name(
        meta.canonical_title.as_str(),
        meta.release_year,
        borrowed(&meta.imdb_id),
    );
    let mut filename = meta.canonical_title.clone();
    filename.append(".");
    filename.append(extension_or_empty(file).as_str());
    join_path(folder.as_str(), filename.as_str())
}

/// The links for the files of a show.
pub fn link_show(
    meta: &ShowMeta,
    files: &[ShowFile],
    download_dir: &str,
    dirs: &DirConfig,
) -> (r: Vec<Link>)
    ensures
        links_of(r@) == show_links_of(*meta, files@, download_dir@, dirs.shows@),
{
    let mut r: Vec<Link> = Vec::new();
    let mut i: usize = 0;
    while i < files.len()
        invariant
            i <= files.len(),
            links_of(r@) == show_links_of(
                *meta,
                files@.take(i as int),
                download_dir@,
                dirs.shows@,
            ),
        decreases files.len() - i,
    {
        let src = join_path(download_dir, files[i].file.name.as_str());
        let dst = join_path(dirs.shows.as_str(), show_dest(meta, &files[i]).as_str());
        let ghost before = r@;
        r.push(Link { src, dst });
        i += 1;
        proof {
            assert(links_of(r@) == links_of(before).push(r@[i - 1]@));
            assert(show_links_of(*meta, files@.take(i as int), download_dir@, dirs.shows@)
                == show_links_of(*meta, files@.take(i - 1), download_dir@, dirs.shows@).push(
                r@[i - 1]@,
            ));
        }
    }
    assert(files@.take(files@.len() as int) == files@);
    r
}

/// The links for the files of a movie.
pub fn link_movie(
    meta: &MovieMeta,
    files: &[TorrentFile],
    download_dir: &str,
    dirs: &DirConfig,
) -> (r: Vec<Link>)
    ensures
        links_of(r@) == movie_links_of(*meta, files@, download_dir@, dirs.movies@),
{
    let mut r: Vec<Link> = Vec::new();
    let mut i: usize = 0;
    while i < files.len()
        invariant
            i <= files.len(),
            links_of(r@) == movie_links_of(
                *meta,
                files@.take(i as int),
                download_dir@,
                dirs.movies@,
            ),
        decreases files.len() - i,
    {
        let src = join_path(download_dir, files[i].name.as_str());
        let dst = join_path(dirs.movies.as_str(), movie_dest(meta, &files[i]).as_str());
        let ghost before = r@;
        r.push(Link { src, dst });
        i += 1;
        proof {
            assert(links_of(r@) == links_of(before).push(r@[i - 1]@));
            assert(movie_links_of(*meta, files@.take(i as int), download_dir@, dirs.movies@)
                == movie_links_of(*meta, files@.take(i - 1), download_dir@, dirs.movies@).push(
                r@[i - 1]@,
            ));
        }
    }
    assert(files@.take(files@.len() as int) == files@);
    r
}

/// The links for files that are neither a show nor a movie: each keeps the path
/// that it has within the torrent.
pub fn link_other(files: &[TorrentFile], download_dir: &str, dirs: &DirConfig) -> (r: Vec<Link>)
    ensures
        links_of(r@) == other_links_of(files@, download_dir@, dirs.other@),
{
    let mut r: Vec<Link> = Vec::new();
    let mut i: usize = 0;
    while i < files.len()
        invariant
            i <= files.len(),
            links_of(r@) == other_links_of(files@.take(i as int), download_dir@, dirs.other@),
        decreases files.len() - i,
    {
        let src = join_path(download_dir, files[i].name.as_str());
        let dst = join_path(dirs.other.as_str(), files[i].name.as_str());
        let ghost before = r@;
        r.push(Link { src, dst });
        i += 1;
        proof {
            assert(links_of(r@) == links_of(before).push(r@[i - 1]@));
            assert(other_links_of(files@.take(i as int), download_dir@, dirs.other@)
                == other_links_of(files@.take(i - 1), download_dir@, dirs.other@).push(
                r@[i - 1]@,
            ));
        }
    }
    assert(files@.take(files@.len() as int) == files@);
    r
}

// ── making a link ────────────────────────────────────────────────────────────

/// What is to be done next to make a link.
#[derive(Debug)]
pub enum LinkStep {
    /// Create this directory, and all above it.
    CreateDirectory(String),
    /// Make the link itself.
    LinkFile,
    /// Nothing: it is over.
    Finished(LinkReport),
}

/// What the attempt to link a file gave.
#[derive(Debug, Clone, Copy, PartialEq, Eq, Structural)]
pub enum LinkResult {
    Made,
    Exists,
    Failed,
}

/// How the making of a link ended.
#[derive(Debug, Clone, Copy, PartialEq, Eq, Structural)]
pub enum LinkReport {
    Linked,
    /// Something is already there; the file is left out.
    AlreadyExists,
    /// The directory for the link could not be created; the link was not tried.
    DirectoryFailed,
    LinkFailed,
}

impl Link {
    /// The first step: the directory for the link, if the link is in one.
    pub fn first_step(&self) -> (r: LinkStep)
        ensures
            match r {
                LinkStep::CreateDirectory(dir) => has_parent(self.dst@) && parent_path(self.dst@)
                    == Some(dir@) && components_of(dir@) == components_of(self.dst@).drop_last(),
                LinkStep::LinkFile => !has_parent(self.dst@),
                LinkStep::Finished(_) => false,
            },
    {
        match parent(self.dst.as_str()) {
            Some(dir) => LinkStep::CreateDirectory(dir),
            None => LinkStep::LinkFile,
        }
    }
}

/// The step after the attempt to create the directory.
pub fn after_directory(created: bool) -> (r: LinkStep)
    ensures
        r == (if created {
            LinkStep::LinkFile
        } else {
            LinkStep::Finished(LinkReport::DirectoryFailed)
        }),
{
    if created {
        LinkStep::LinkFile
    } else {
        LinkStep::Finished(LinkReport::DirectoryFailed)
    }
}

/// How the making of a link ended, by what the attempt gave.
pub fn after_link(result: LinkResult) -> (r: LinkReport)
    ensures
        r == (match result {
            LinkResult::Made => LinkReport::Linked,
            LinkResult::Exists => LinkReport::AlreadyExists,
            LinkResult::Failed => LinkReport::LinkFailed,
        }),
{
    match result {
        LinkResult::Made => LinkReport::Linked,
        LinkResult::Exists => LinkReport::AlreadyExists,
        LinkResult::Failed => LinkReport::LinkFailed,
    }
}

impl LinkReport {
    /// The counter that counts this way of ending, if there is one.
    pub fn counter(self) -> (r: Option<&'static str>)
        ensures
            view_of(r) == (match self {
                LinkReport::Linked => Some("vidsort_links_created_total"@),
                LinkReport::LinkFailed => Some("vidsort_link_errors_total"@),
                LinkReport::AlreadyExists | LinkReport::DirectoryFailed => None,
            }),
    {
        match self {
            LinkReport::Linked => Some("vidsort_links_created_total"),
            LinkReport::LinkFailed => Some("vidsort_link_errors_total"),
            LinkReport::AlreadyExists | LinkReport::DirectoryFailed => None,
        }
    }
}

// ── laws ─────────────────────────────────────────────────────────────────────

/// Digits that something else follows are known from the text that they begin.
proof fn lemma_leading_digits(
    a: Seq<char>,
    x: char,
    u: Seq<char>,
    b: Seq<char>,
    y: char,
    v: Seq<char>,
)
    requires
        all_digits(a),
        all_digits(b),
        !is_digit(x),
        !is_digit(y),
        a.push(x) + u == b.push(y) + v,
    ensures
        a == b,
{
    let left = a.push(x) + u;
    let right = b.push(y) + v;
    if a.len() < b.len() {
        assert(left[a.len() as int] == x);
        assert(right[a.len() as int] == b[a.len() as int]);
        assert(false);
    }
    if b.len() < a.len() {
        assert(right[b.len() as int] == y);
        assert(left[b.len() as int] == a[b.len() as int]);
        assert(false);
    }
    assert forall|i: int| 0 <= i < a.len() implies a[i] == b[i] by {
        assert(left[i] == a[i]);
        assert(right[i] == b[i]);
    }
    assert(a =~= b);
}

/// Links to different episodes have different names.
proof fn lemma_episode_names_differ(
    title: Seq<char>,
    a: EpisodeId,
    a_ext: Seq<char>,
    b: EpisodeId,
    b_ext: Seq<char>,
)
    requires
        episode_name_of(title, a, a_ext) == episode_name_of(title, b, b_ext),
    ensures
        a == b,
{
    reveal_strlit(" S");
    reveal_strlit("E");
    reveal_strlit(".");
    lemma_two_digits_value(a.season as nat);
    lemma_two_digits_value(b.season as nat);
    lemma_two_digits_value(a.episode as nat);
    lemma_two_digits_value(b.episode as nat);
    let (a_s, a_e) = (two_digits(a.season as nat), two_digits(a.episode as nat));
    let (b_s, b_e) = (two_digits(b.season as nat), two_digits(b.episode as nat));
    let a_rest = a_e.push('.') + a_ext;
    let b_rest = b_e.push('.') + b_ext;
    let n = title.len() + 2;
    assert(episode_name_of(title, a, a_ext).skip(n as int) =~= a_s.push('E') + a_rest);
    assert(episode_name_of(title, b, b_ext).skip(n as int) =~= b_s.push('E') + b_rest);
    lemma_leading_digits(a_s, 'E', a_rest, b_s, 'E', b_rest);
    assert((a_s.push('E') + a_rest).skip(a_s.len() as int + 1) =~= a_rest);
    assert((b_s.push('E') + b_rest).skip(b_s.len() as int + 1) =~= b_rest);
    lemma_leading_digits(a_e, '.', a_ext, b_e, '.', b_ext);
}

/// Paths that are both relative, or both absolute, are known from what they are
/// put behind the same base.
proof fn lemma_joined_path_injective(base: Seq<char>, p: Seq<char>, q: Seq<char>)
    requires
        joined_path(base, p) == joined_path(base, q),
        is_absolute(p) == is_absolute(q),
    ensures
        p == q,
{
    if !is_absolute(p) {
        let prefix = slashed(base);
        assert((prefix + p).skip(prefix.len() as int) =~= p);
        assert((prefix + q).skip(prefix.len() as int) =~= q);
    }
}

/// Whether an episode's destination is an absolute path depends on the show alone.
proof fn lemma_show_dest_absolute(meta: ShowMeta, file: ShowFile)
    ensures
        is_absolute(show_dest_of(meta, file)) == (is_absolute(meta.canonical_title@)
            || is_absolute(
            folder_of(meta.canonical_title@, meta.release_year, view_of(meta.imdb_id)),
        )),
{
    reveal_strlit(" S");
    reveal_strlit("Season ");
    let title = meta.canonical_title@;
    let name = episode_name_of(title, file.episode_id, extension_or_empty_of(file.file));
    let dir = season_dir_of(file.episode_id.season);
    assert(name[0] == (title + " S"@)[0]);
    assert(dir[0] == 'S');
}

/// What stands in front of the season number in the destinations of a show.
spec fn season_prefix(folder: Seq<char>) -> Seq<char> {
    slashed(folder) + "Season "@
}

/// A season's directory lies in that of the show.
proof fn lemma_season_path(folder: Seq<char>, season: u32)
    ensures
        joined_path(folder, season_dir_of(season)) == season_prefix(folder) + two_digits(
            season as nat,
        ),
{
    reveal_strlit("Season ");
    assert(season_dir_of(season)[0] == 'S');
    assert(joined_path(folder, season_dir_of(season)) =~= season_prefix(folder) + two_digits(
        season as nat,
    ));
}

/// An episode whose name is a relative path is linked in its season's directory.
proof fn lemma_show_dest_shape(meta: ShowMeta, file: ShowFile)
    ensures
        ({
            let title = meta.canonical_title@;
            let folder = folder_of(title, meta.release_year, view_of(meta.imdb_id));
            let name = episode_name_of(title, file.episode_id, extension_or_empty_of(file.file));
            let digits = two_digits(file.episode_id.season as nat);
            &&& is_absolute(name) == is_absolute(title)
            &&& is_absolute(title) ==> show_dest_of(meta, file) == name
            &&& !is_absolute(title) ==> show_dest_of(meta, file).skip(
                season_prefix(folder).len() as int,
            ) == digits.push('/') + name
        }),
{
    let title = meta.canonical_title@;
    let folder = folder_of(title, meta.release_year, view_of(meta.imdb_id));
    let name = episode_name_of(title, file.episode_id, extension_or_empty_of(file.file));
    let digits = two_digits(file.episode_id.season as nat);
    let prefix = season_prefix(folder);
    reveal_strlit(" S");
    assert(name[0] == (title + " S"@)[0]);
    if !is_absolute(title) {
        lemma_season_path(folder, file.episode_id.season);
        lemma_two_digits_value(file.episode_id.season as nat);
        let dir = prefix + digits;
        assert(is_digit(digits.last()));
        assert(dir.last() == digits.last());
        assert(show_dest_of(meta, file) == dir.push('/') + name);
        assert((dir.push('/') + name).skip(prefix.len() as int) =~= digits.push('/') + name);
    }
}

/// The file name of an episode's destination, without its extension, is the title and
/// a marker with the numbers of the episode.
pub proof fn destination_is_named_like_its_episode(meta: ShowMeta, file: ShowFile)
    requires
        is_free_of(meta.canonical_title@, seq!['/']),
    ensures
        stem_of(show_dest_of(meta, file)) == Some(
            marked_name(
                meta.canonical_title@,
                ' ',
                file.episode_id.season,
                Seq::empty(),
                file.episode_id.episode,
            ),
        ),
        extension_of(show_dest_of(meta, file)) == Some(extension_or_empty_of(file.file)),
{
    reveal_strlit(" S");
    reveal_strlit("E");
    reveal_strlit(".");
    let slash = seq!['/'];
    assert(slash[0] == '/');
    let title = meta.canonical_title@;
    let (season, episode) = (file.episode_id.season, file.episode_id.episode);
    let (a, b) = (two_digits(season as nat), two_digits(episode as nat));
    let ext = extension_or_empty_of(file.file);
    let name = episode_name_of(title, file.episode_id, ext);
    let stem = marked_name(title, ' ', season, Seq::empty(), episode);
    let folder = folder_of(title, meta.release_year, view_of(meta.imdb_id));
    extension_is_plain(file.file.name@);
    lemma_two_digits_value(season as nat);
    lemma_two_digits_value(episode as nat);
    assert(stem =~= title + " S"@ + a + "E"@ + b);
    assert(name =~= stem.push('.') + ext);
    assert(is_free_of(stem, slash)) by {
        let n = title.len() as int;
        let m = n + 2 + a.len();
        assert forall|i: int| 0 <= i < stem.len() implies !slash.contains(#[trigger] stem[i]) by {
            if i < n {
                assert(stem[i] == title[i]);
            } else if i < n + 2 {
                assert(stem[i] == " S"@[i - n]);
            } else if i < m {
                assert(stem[i] == a[i - n - 2]);
            } else if i == m {
                assert(stem[i] == 'E');
            } else {
                assert(stem[i] == b[i - m - 1]);
            }
        }
    }
    assert(!is_absolute(title));
    lemma_show_dest_shape(meta, file);
    lemma_season_path(folder, season);
    let dir = season_prefix(folder) + a;
    assert(is_digit(a.last()));
    assert(dir.last() == a.last());
    assert(show_dest_of(meta, file) == dir.push('/') + name);
    stem_is_read_back(dir, stem, ext);
}

/// The file name of an episode's destination is read as that episode, if the title
/// holds neither a slash nor a marker of its own.
pub proof fn destination_is_read_as_its_episode(
    meta: ShowMeta,
    file: ShowFile,
    stem: Seq<char>,
    read: Option<EpisodeId>,
)
    requires
        is_free_of(meta.canonical_title@, seq!['/']),
        regex_captures(FULL_ID_PAT@, meta.canonical_title@) is None,
        stem_of(show_dest_of(meta, file)) == Some(stem),
        is_read_as(stem, read),
    ensures
        read == Some(file.episode_id),
{
    destination_is_named_like_its_episode(meta, file);
    assert(takes_marker(meta.canonical_title@, ' ', Seq::empty()));
}

/// Different episodes of a show have different destinations.
pub proof fn episodes_have_their_own_destinations(meta: ShowMeta, a: ShowFile, b: ShowFile)
    requires
        a.episode_id != b.episode_id,
    ensures
        show_dest_of(meta, a) != show_dest_of(meta, b),
{
    if show_dest_of(meta, a) == show_dest_of(meta, b) {
        let title = meta.canonical_title@;
        let (a_ext, b_ext) = (extension_or_empty_of(a.file), extension_or_empty_of(b.file));
        let a_name = episode_name_of(title, a.episode_id, a_ext);
        let b_name = episode_name_of(title, b.episode_id, b_ext);
        lemma_show_dest_shape(meta, a);
        lemma_show_dest_shape(meta, b);
        if !is_absolute(title) {
            let a_s = two_digits(a.episode_id.season as nat);
            let b_s = two_digits(b.episode_id.season as nat);
            lemma_two_digits_value(a.episode_id.season as nat);
            lemma_two_digits_value(b.episode_id.season as nat);
            lemma_leading_digits(a_s, '/', a_name, b_s, '/', b_name);
            assert((a_s.push('/') + a_name).skip(a_s.len() as int + 1) =~= a_name);
            assert((b_s.push('/') + b_name).skip(b_s.len() as int + 1) =~= b_name);
        }
        lemma_episode_names_differ(title, a.episode_id, a_ext, b.episode_id, b_ext);
    }
}

/// The links for the files of a show never get in each other's way.
pub proof fn show_links_do_not_collide(
    meta: ShowMeta,
    files: Seq<ShowFile>,
    download_dir: Seq<char>,
    shows: Seq<char>,
)
    requires
        distinct_episodes(files),
    ensures
        ({
            let links = show_links_of(meta, files, download_dir, shows);
            forall|i: int, j: int|
                0 <= i < j < links.len() ==> (#[trigger] links[i]).dst != (
                #[trigger] links[j]).dst
        }),
{
    let links = show_links_of(meta, files, download_dir, shows);
    assert forall|i: int, j: int| 0 <= i < j < links.len() implies (#[trigger] links[i]).dst != (
    #[trigger] links[j]).dst by {
        assert(files[i].episode_id != files[j].episode_id);
        episodes_have_their_own_destinations(meta, files[i], files[j]);
        lemma_show_dest_absolute(meta, files[i]);
        lemma_show_dest_absolute(meta, files[j]);
        if links[i].dst == links[j].dst {
            lemma_joined_path_injective(
                shows,
                show_dest_of(meta, files[i]),
                show_dest_of(meta, files[j]),
            );
        }
    }
}

/// The folder of a show or a movie is an absolute path only if the title is.
proof fn lemma_folder_absolute(title: Seq<char>, year: Option<u32>, imdb_id: Option<Seq<char>>)
    requires
        !is_absolute(title),
    ensures
        !is_absolute(folder_of(title, year, imdb_id)),
{
    reveal_strlit(" ");
    reveal_strlit(" [");
    let dated = titled_year(title, year);
    assert(dated.len() > 0 ==> dated[0] != '/') by {
        if title.len() > 0 {
            assert(dated[0] == title[0]);
        } else if let Some(y) = year {
            if !has_suffix(title, year_tag(y)) {
                assert(dated[0] == ' ');
            }
        }
    }
    if let Some(id) = imdb_id {
        let folder = folder_of(title, year, imdb_id);
        if dated.len() > 0 {
            assert(folder[0] == dated[0]);
        } else {
            assert(folder[0] == ' ');
        }
    }
}

/// The links for the files of a show lie in the directory for shows, in that of
/// the show.
pub proof fn show_links_stay_in_their_directory(
    meta: ShowMeta,
    files: Seq<ShowFile>,
    download_dir: Seq<char>,
    shows: Seq<char>,
    at: int,
)
    requires
        !is_absolute(meta.canonical_title@),
        0 <= at < files.len(),
    ensures
        ({
            let folder = folder_of(
                meta.canonical_title@,
                meta.release_year,
                view_of(meta.imdb_id),
            );
            begins_with(
                show_links_of(meta, files, download_dir, shows)[at].dst,
                slashed(shows) + slashed(folder),
            )
        }),
{
    let title = meta.canonical_title@;
    let folder = folder_of(title, meta.release_year, view_of(meta.imdb_id));
    let season = files[at].episode_id.season;
    let name = episode_name_of(title, files[at].episode_id, extension_or_empty_of(files[at].file));
    lemma_folder_absolute(title, meta.release_year, view_of(meta.imdb_id));
    lemma_show_dest_absolute(meta, files[at]);
    lemma_show_dest_shape(meta, files[at]);
    lemma_season_path(folder, season);
    lemma_two_digits_value(season as nat);
    let dir = season_prefix(folder) + two_digits(season as nat);
    let dst = show_links_of(meta, files, download_dir, shows)[at].dst;
    assert(show_dest_of(meta, files[at]) == slashed(dir) + name);
    assert(dst == slashed(shows) + (slashed(dir) + name));
    let part = slashed(shows) + slashed(folder);
    assert(dst.take(part.len() as int) =~= part);
}

/// The links for the files of a movie lie in the directory for movies, in that of
/// the movie.
pub proof fn movie_links_stay_in_their_directory(
    meta: MovieMeta,
    files: Seq<TorrentFile>,
    download_dir: Seq<char>,
    movies: Seq<char>,
    at: int,
)
    requires
        !is_absolute(meta.canonical_title@),
        0 <= at < files.len(),
    ensures
        ({
            let folder = folder_of(
                meta.canonical_title@,
                meta.release_year,
                view_of(meta.imdb_id),
            );
            begins_with(
                movie_links_of(meta, files, download_dir, movies)[at].dst,
                slashed(movies) + slashed(folder),
            )
        }),
{
    reveal_strlit(".");
    let title = meta.canonical_title@;
    let folder = folder_of(title, meta.release_year, view_of(meta.imdb_id));
    let name = title + "."@ + extension_or_empty_of(files[at]);
    lemma_folder_absolute(title, meta.release_year, view_of(meta.imdb_id));
    assert(name[0] == (title + "."@)[0]);
    let dest = movie_dest_of(meta, files[at]);
    assert(dest == slashed(folder) + name);
    assert(!is_absolute(dest)) by {
        if folder.len() > 0 {
            assert(dest[0] == folder[0]);
        }
    }
    let dst = movie_links_of(meta, files, download_dir, movies)[at].dst;
    assert(dst == slashed(movies) + dest);
    let part = slashed(movies) + slashed(folder);
    assert(dst.take(part.len() as int) =~= part);
}

/// Files that are neither a show nor a movie keep their paths: a link leads from
/// the directory for them to the path that the file has within the torrent, and
/// files with different paths have different links.
pub proof fn other_links_keep_paths(
    files: Seq<TorrentFile>,
    download_dir: Seq<char>,
    other: Seq<char>,
)
    requires
        forall|i: int| 0 <= i < files.len() ==> !is_absolute((#[trigger] files[i]).name@),
    ensures
        ({
            let links = other_links_of(files, download_dir, other);
            &&& links.len() == files.len()
            &&& forall|i: int|
                0 <= i < links.len() ==> (#[trigger] links[i]).dst == slashed(other)
                    + files[i].name@
            &&& forall|i: int, j: int|
                0 <= i < links.len() && 0 <= j < links.len() && files[i].name@ != files[j].name@
                    ==> (#[trigger] links[i]).dst != (#[trigger] links[j]).dst
        }),
{
    let links = other_links_of(files, download_dir, other);
    assert forall|i: int, j: int|
        0 <= i < links.len() && 0 <= j < links.len() && files[i].name@ != files[j].name@ implies (
    #[trigger] links[i]).dst != (#[trigger] links[j]).dst by {
        if links[i].dst == links[j].dst {
            lemma_joined_path_injective(other, files[i].name@, files[j].name@);
        }
    }
}

/// The year is never put twice: a title that was already given its year keeps it
/// as it is.
pub proof fn year_is_not_repeated(title: Seq<char>, year: u32, imdb_id: Option<Seq<char>>)
    ensures
        folder_of(titled_year(title, Some(year)), Some(year), imdb_id) == folder_of(
            title,
            Some(year),
            imdb_id,
        ),
{
    let once = titled_year(title, Some(year));
    let tag = year_tag(year);
    if !has_suffix(title, tag) {
        assert(once.skip(once.len() - tag.len()) =~= tag);
    }
}

/// What stands for links leaves nothing out.
pub proof fn links_show_everything(links: Seq<Link>)
    ensures
        links_of(links).len() == links.len(),
        forall|i: int|
            0 <= i < links.len() ==> (#[trigger] links_of(links)[i]).src == links[i].src@ && links_of(
                links,
            )[i].dst == links[i].dst@,
{
}

/// A directory is named by the title; behind it stands the year in parentheses, unless the
/// title ends with that already, and behind that the IMDB ID in brackets.
pub proof fn directories_are_named_by_title_year_and_id(title: Seq<char>, year: u32, id: Seq<char>)
    ensures
        ({
            let tag = seq!['('] + decimal(year as nat) + seq![')'];
            let ends = tag.len() <= title.len() && title.subrange(
                title.len() - tag.len(),
                title.len() as int,
            ) == tag;
            let dated = if ends {
                title
            } else {
                title.push(' ') + tag
            };
            let suffix = seq![' ', '['] + id + seq![']'];
            &&& folder_of(title, None, None) == title
            &&& folder_of(title, None, Some(id)) == title + suffix
            &&& folder_of(title, Some(year), None) == dated
            &&& folder_of(title, Some(year), Some(id)) == dated + suffix
        }),
{
    reveal_strlit("(");
    reveal_strlit(")");
    reveal_strlit(" ");
    reveal_strlit(" [");
    reveal_strlit("]");
    let tag = seq!['('] + decimal(year as nat) + seq![')'];
    let suffix = seq![' ', '['] + id + seq![']'];
    assert(year_tag(year) =~= tag);
    if tag.len() <= title.len() {
        assert(title.skip(title.len() - tag.len()) =~= title.subrange(
            title.len() - tag.len(),
            title.len() as int,
        ));
    }
    let dated = titled_year(title, Some(year));
    assert(title + " "@ + tag =~= title.push(' ') + tag);
    assert(title + " ["@ + id + "]"@ =~= title + suffix);
    assert(dated + " ["@ + id + "]"@ =~= dated + suffix);
}

/// An episode is linked in the directory of its show, in that of its season, under the
/// title, the numbers of the season and the episode with at least two digits each, and
/// the extension of its file.
pub proof fn episodes_are_linked_by_season(meta: ShowMeta, file: ShowFile)
    requires
        forall|i: int|
            0 <= i < meta.canonical_title@.len() ==> #[trigger] meta.canonical_title@[i] != '/',
    ensures
        ({
            let title = meta.canonical_title@;
            let folder = folder_of(title, meta.release_year, view_of(meta.imdb_id));
            let season = two_digits(file.episode_id.season as nat);
            let episode = two_digits(file.episode_id.episode as nat);
            let ext = match extension_of(file.file.name@) {
                Some(ext) => ext,
                None => Seq::empty(),
            };
            let name = title + seq![' ', 'S'] + season + seq!['E'] + episode + seq!['.'] + ext;
            show_dest_of(meta, file) == (if folder.len() == 0 || folder.last() == '/' {
                folder
            } else {
                folder.push('/')
            }) + seq!['S', 'e', 'a', 's', 'o', 'n', ' '] + season + seq!['/'] + name
        }),
{
    reveal_strlit(" S");
    reveal_strlit("E");
    reveal_strlit(".");
    reveal_strlit("Season ");
    let title = meta.canonical_title@;
    let folder = folder_of(title, meta.release_year, view_of(meta.imdb_id));
    let season = two_digits(file.episode_id.season as nat);
    let episode = two_digits(file.episode_id.episode as nat);
    let ext = extension_or_empty_of(file.file);
    let name = title + seq![' ', 'S'] + season + seq!['E'] + episode + seq!['.'] + ext;
    assert(episode_name_of(title, file.episode_id, ext) =~= name);
    assert(name[0] == (title + seq![' ', 'S'])[0]);
    lemma_season_path(folder, file.episode_id.season);
    lemma_two_digits_value(file.episode_id.season as nat);
    let dir = season_prefix(folder) + season;
    assert(is_digit(season.last()));
    assert(dir.last() == season.last());
    assert(show_dest_of(meta, file) == dir.push('/') + name);
    assert(dir.push('/') + name =~= slashed(folder) + seq!['S', 'e', 'a', 's', 'o', 'n', ' ']
        + season + seq!['/'] + name);
}

/// A movie is linked in its directory, under its title and the extension of its file; both
/// are read back from the link.
pub proof fn movies_are_linked_by_title(meta: MovieMeta, file: TorrentFile)
    requires
        forall|i: int|
            0 <= i < meta.canonical_title@.len() ==> #[trigger] meta.canonical_title@[i] != '/',
    ensures
        ({
            let title = meta.canonical_title@;
            let folder = folder_of(title, meta.release_year, view_of(meta.imdb_id));
            let ext = match extension_of(file.name@) {
                Some(ext) => ext,
                None => Seq::empty(),
            };
            let dest = movie_dest_of(meta, file);
            &&& dest == (if folder.len() == 0 || folder.last() == '/' {
                folder
            } else {
                folder.push('/')
            }) + title + seq!['.'] + ext
            &&& title.len() > 0 && (title != seq!['.'] || ext.len() > 0) ==> stem_of(dest) == Some(
                title,
            ) && extension_of(dest) == Some(ext)
        }),
{
    reveal_strlit(".");
    let title = meta.canonical_title@;
    let folder = folder_of(title, meta.release_year, view_of(meta.imdb_id));
    let ext = extension_or_empty_of(file);
    let name = title.push('.') + ext;
    let slash = seq!['/'];
    assert(slash[0] == '/');
    assert(title + "."@ + ext =~= name);
    assert(name[0] == title.push('.')[0]);
    let dest = movie_dest_of(meta, file);
    assert(dest == slashed(folder) + name);
    assert(dest =~= slashed(folder) + title + seq!['.'] + ext);
    if title.len() > 0 && (title != seq!['.'] || ext.len() > 0) {
        extension_is_plain(file.name@);
        directories_end_without_a_slash(title, meta.release_year, view_of(meta.imdb_id));
        assert(slashed(folder) == folder.push('/'));
        assert(is_free_of(title, slash));
        stem_is_read_back(folder, title, ext);
    }
}

/// The directory for a title without slashes does not end with one, whatever the year and
/// the IMDB ID.
pub proof fn directories_end_without_a_slash(
    title: Seq<char>,
    year: Option<u32>,
    imdb_id: Option<Seq<char>>,
)
    requires
        title.len() > 0,
        forall|i: int| 0 <= i < title.len() ==> #[trigger] title[i] != '/',
    ensures
        folder_of(title, year, imdb_id).len() > 0,
        folder_of(title, year, imdb_id).last() != '/',
{
    reveal_strlit(")");
    reveal_strlit("]");
    assert(title.last() == title[title.len() - 1]);
    if let Some(y) = year {
        assert(year_tag(y).last() == ')');
        let dated = titled_year(title, year);
        assert(dated.last() == ')' || dated == title);
    }
    if let Some(id) = imdb_id {
        assert(folder_of(title, year, imdb_id).last() == ']');
    }
}

/// There is one link for each file, in their order. It leads from the file in the download
/// directory to its destination in the directory for shows, for movies or for others.
pub proof fn every_file_has_its_link(
    show: ShowMeta,
    episodes: Seq<ShowFile>,
    movie: MovieMeta,
    files: Seq<TorrentFile>,
    download_dir: Seq<char>,
    base: Seq<char>,
)
    ensures
        show_links_of(show, episodes, download_dir, base).len() == episodes.len(),
        forall|i: int|
            0 <= i < episodes.len() ==> (#[trigger] show_links_of(
                show,
                episodes,
                download_dir,
                base,
            )[i]).src == joined_path(download_dir, episodes[i].file.name@) && show_links_of(
                show,
                episodes,
                download_dir,
                base,
            )[i].dst == joined_path(base, show_dest_of(show, episodes[i])),
        movie_links_of(movie, files, download_dir, base).len() == files.len(),
        forall|i: int|
            0 <= i < files.len() ==> (#[trigger] movie_links_of(
                movie,
                files,
                download_dir,
                base,
            )[i]).src == joined_path(download_dir, files[i].name@) && movie_links_of(
                movie,
                files,
                download_dir,
                base,
            )[i].dst == joined_path(base, movie_dest_of(movie, files[i])),
        other_links_of(files, download_dir, base).len() == files.len(),
        forall|i: int|
            0 <= i < files.len() ==> (#[trigger] other_links_of(
                files,
                download_dir,
                base,
            )[i]).src == joined_path(download_dir, files[i].name@) && other_links_of(
                files,
                download_dir,
                base,
            )[i].dst == joined_path(base, files[i].name@),
{
}

} // verus!
