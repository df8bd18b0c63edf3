//! What a torrent holds: a show, a movie, or something else.
//!
//! The names of a torrent's files suggest a show or a movie; a metadata lookup
//! confirms it. The lookups are made by the caller: [`classify`] says which one
//! is needed first, and the answer is handed to [`PendingShow::resume`] or
//! [`PendingMovie::resume`], until the torrent is classified.

use vstd::prelude::*;

use crate::parser::movie::{movie_of, MovieMetadata};
use crate::parser::tvshow::{episode_of, EpisodeId, EpisodeMetadata};
use crate::path::{
    extension, extension_of, file_stem, parent_components, parent_components_of, stem_of,
    stem_or_empty, stem_or_empty_of,
};
use crate::pattern::{is_match, regex_is_match, EXTRAS_PAT};
use crate::text::{
    contains, has_part, lowercase, same_text, texts, to_lowercase, view_of,
};
use crate::tvdb::{MovieMeta, ShowMeta};
use crate::types::{copy_files, TorrentFile, TorrentInfo};

verus! {

/// Files below this size, 50 MiB, are taken for samples.
pub const SAMPLE_SIZE_THRESHOLD: u64 = 52428800;

// ── which files count ────────────────────────────────────────────────────────

/// Whether an extension is that of a video.
pub open spec fn is_video_extension(ext: Seq<char>) -> bool {
    ||| ext == "mkv"@
    ||| ext == "mp4"@
    ||| ext == "avi"@
    ||| ext == "mov"@
    ||| ext == "wmv"@
    ||| ext == "m4v"@
}

/// Whether a file is a video, by its extension.
pub open spec fn is_video_file(file: TorrentFile) -> bool {
    match extension_of(file.name@) {
        Some(ext) => is_video_extension(ext),
        None => false,
    }
}

/// Whether a file of the given size, and the given name in lower case, is a
/// sample: a small file, or one that is called so.
pub open spec fn is_sample_by(length: u64, lowered_stem: Option<Seq<char>>) -> bool {
    length < SAMPLE_SIZE_THRESHOLD || match lowered_stem {
        Some(stem) => has_part(stem, "sample"@),
        None => false,
    }
}

/// Whether a file is a sample.
pub open spec fn is_sample_file(file: TorrentFile) -> bool {
    is_sample_by(
        file.length,
        match stem_of(file.name@) {
            Some(stem) => Some(lowercase(stem)),
            None => None,
        },
    )
}

/// Whether a name is that of bonus material.
pub open spec fn is_extra_name(name: Seq<char>) -> bool {
    regex_is_match(EXTRAS_PAT@, name)
}

/// Whether a file is bonus material, by its own name or by that of a directory
/// above it.
pub open spec fn is_extra_file(file: TorrentFile) -> bool {
    ||| match stem_of(file.name@) {
        Some(stem) => is_extra_name(stem),
        None => false,
    }
    ||| exists|i: int|
        0 <= i < parent_components_of(file.name@).len() && is_extra_name(
            #[trigger] parent_components_of(file.name@)[i],
        )
}

/// Whether a file counts when the torrent is classified.
pub open spec fn is_kept(file: TorrentFile) -> bool {
    is_video_file(file) && !is_sample_file(file) && !is_extra_file(file)
}

/// The files of a torrent that count when it is classified.
pub open spec fn videos_of(files: Seq<TorrentFile>) -> Seq<TorrentFile> {
    files.filter(|f: TorrentFile| is_kept(f))
}

/// Where the largest file stands: the last one, if several are as large.
pub open spec fn largest_index(files: Seq<TorrentFile>) -> int
    decreases files.len(),
{
    if files.len() <= 1 {
        0
    } else {
        let i = largest_index(files.drop_last());
        if files[i].length <= files.last().length {
            files.len() - 1
        } else {
            i
        }
    }
}

/// The stem of the largest file's name.
pub open spec fn largest_stem(files: Seq<TorrentFile>) -> Seq<char> {
    stem_or_empty_of(files[largest_index(files)].name@)
}

/// Whether a file is a video, by its extension.
pub fn is_video(file: &TorrentFile) -> (r: bool)
    ensures
        r == is_video_file(*file),
{
    match extension(file.name.as_str()) {
        Some(ext) => {
            let ext = ext.as_str();
            same_text(ext, "mkv") || same_text(ext, "mp4") || same_text(ext, "avi") || same_text(
                ext,
                "mov",
            ) || same_text(ext, "wmv") || same_text(ext, "m4v")
        },
        None => false,
    }
}

/// Whether a file of the given size and the given name in lower case is a sample.
pub fn sample_by(length: u64, lowered_stem: Option<&str>) -> (r: bool)
    ensures
        r == is_sample_by(length, view_of(lowered_stem)),
{
    if length < SAMPLE_SIZE_THRESHOLD {
        return true;
    }
    match lowered_stem {
        Some(stem) => contains(stem, "sample"),
        None => false,
    }
}

/// Whether a file is a sample.
pub fn is_sample(file: &TorrentFile) -> (r: bool)
    ensures
        r == is_sample_file(*file),
{
    match file_stem(file.name.as_str()) {
        Some(stem) => {
            let lowered = to_lowercase(stem.as_str());
            sample_by(file.length, Some(lowered.as_str()))
        },
        None => sample_by(file.length, None),
    }
}

/// Whether a file is bonus material, or nested under a directory of such.
pub fn is_extra(file: &TorrentFile) -> (r: bool)
    ensures
        r == is_extra_file(*file),
{
    if let Some(stem) = file_stem(file.name.as_str()) {
        if is_match(EXTRAS_PAT, stem.as_str()) {
            return true;
        }
    }
    let parents = parent_components(file.name.as_str());
    let mut i: usize = 0;
    while i < parents.len()
        invariant
            i <= parents.len(),
            texts(parents@) == parent_components_of(file.name@),
            forall|j: int| 0 <= j < i ==> !is_extra_name(#[trigger] texts(parents@)[j]),
        decreases parents.len() - i,
    {
        assert(texts(parents@)[i as int] == parents@[i as int]@);
        if is_match(EXTRAS_PAT, parents[i].as_str()) {
            assert(is_extra_name(parent_components_of(file.name@)[i as int]));
            return true;
        }
        i += 1;
    }
    false
}

/// The files that count: videos that are neither samples nor bonus material.
pub fn filter_video_files(files: &[TorrentFile]) -> (r: Vec<TorrentFile>)
    ensures
        r@ == videos_of(files@),
{
    let ghost keep = |f: TorrentFile| is_kept(f);
    let mut r: Vec<TorrentFile> = Vec::new();
    let mut i: usize = 0;
    proof {
        reveal(Seq::filter);
        assert(files@.take(0) == Seq::<TorrentFile>::empty());
    }
    while i < files.len()
        invariant
            i <= files.len(),
            keep == (|f: TorrentFile| is_kept(f)),
            r@ == files@.take(i as int).filter(keep),
        decreases files.len() - i,
    {
        proof {
            reveal(Seq::filter);
            assert(files@.take(i + 1).drop_last() == files@.take(i as int));
        }
        let file = &files[i];
        if is_video(file) && !is_sample(file) && !is_extra(file) {
            r.push(file.clone());
        }
        i += 1;
    }
    assert(files@.take(files@.len() as int) == files@);
    r
}

/// The largest of some files: the last one, if several are as large.
pub fn largest_file(files: &[TorrentFile]) -> (r: &TorrentFile)
    requires
        files@.len() > 0,
    ensures
        *r == files@[largest_index(files@)],
{
    let mut largest: usize = 0;
    let mut i: usize = 1;
    while i < files.len()
        invariant
            1 <= i <= files.len(),
            largest < i,
            largest == largest_index(files@.take(i as int)),
        decreases files.len() - i,
    {
        assert(files@.take(i + 1).drop_last() == files@.take(i as int));
        if files[largest].length <= files[i].length {
            largest = i;
        }
        i += 1;
    }
    assert(files@.take(files@.len() as int) == files@);
    &files[largest]
}

// ── candidates ───────────────────────────────────────────────────────────────

/// A video file of a show and the number of its episode.
#[derive(Debug)]
pub struct ShowFile {
    pub file: TorrentFile,
    pub episode_id: EpisodeId,
}

impl Clone for ShowFile {
    fn clone(&self) -> (r: Self)
        ensures
            r == *self,
    {
        ShowFile { file: self.file.clone(), episode_id: self.episode_id }
    }
}

/// The show that the names of a torrent's files suggest.
#[derive(Debug)]
pub struct ShowCandidate {
    pub raw_title: String,
    pub season: u32,
    pub episode: u32,
    pub video_files: Vec<ShowFile>,
}

/// The movie that the name of a torrent's file suggests.
#[derive(Debug)]
pub struct MovieCandidate {
    pub raw_title: String,
    pub year_hint: Option<u32>,
    pub video_files: Vec<TorrentFile>,
}

/// What a [`ShowCandidate`] holds.
#[verifier::ext_equal]
pub struct ShowCandidateView {
    pub raw_title: Seq<char>,
    pub season: u32,
    pub episode: u32,
    pub video_files: Seq<ShowFile>,
}

/// What a [`MovieCandidate`] holds.
#[verifier::ext_equal]
pub struct MovieCandidateView {
    pub raw_title: Seq<char>,
    pub year_hint: Option<u32>,
    pub video_files: Seq<TorrentFile>,
}

impl View for ShowCandidate {
    type V = ShowCandidateView;

    open spec fn view(&self) -> ShowCandidateView {
        ShowCandidateView {
            raw_title: self.raw_title@,
            season: self.season,
            episode: self.episode,
            video_files: self.video_files@,
        }
    }
}

impl View for MovieCandidate {
    type V = MovieCandidateView;

    open spec fn view(&self) -> MovieCandidateView {
        MovieCandidateView {
            raw_title: self.raw_title@,
            year_hint: self.year_hint,
            video_files: self.video_files@,
        }
    }
}

/// The names in which an episode is looked for: that of the file, then those of
/// the directories above it, innermost first.
pub open spec fn sources_of(path: Seq<char>) -> Seq<Seq<char>> {
    seq![stem_or_empty_of(path)] + parent_components_of(path).reverse()
}

/// The episode in the first name that describes one.
pub open spec fn first_episode(sources: Seq<Seq<char>>) -> Option<(Seq<char>, EpisodeId)>
    decreases sources.len(),
{
    if sources.len() == 0 {
        None
    } else {
        match episode_of(sources[0]) {
            Some(m) => Some(m),
            None => first_episode(sources.drop_first()),
        }
    }
}

/// The number of the episode in a file's own name.
pub open spec fn own_id(file: TorrentFile) -> Option<EpisodeId> {
    match episode_of(stem_or_empty_of(file.name@)) {
        Some(m) => Some(m.1),
        None => None,
    }
}

/// The numbers of the episodes in the files' own names.
pub open spec fn own_ids(files: Seq<TorrentFile>) -> Seq<Option<EpisodeId>> {
    files.map_values(|f: TorrentFile| own_id(f))
}

/// Each file with the number in its own name, or else the number given for all.
pub open spec fn numbered_files(
    files: Seq<TorrentFile>,
    ids: Seq<Option<EpisodeId>>,
    fallback: EpisodeId,
) -> Seq<ShowFile> {
    Seq::new(
        files.len(),
        |i: int|
            ShowFile {
                file: files[i],
                episode_id: match ids[i] {
                    Some(id) => id,
                    None => fallback,
                },
            },
    )
}

/// Whether no two files are the same episode.
pub open spec fn distinct_episodes(files: Seq<ShowFile>) -> bool {
    forall|i: int, j: int|
        0 <= i < j < files.len() ==> (#[trigger] files[i]).episode_id != (
        #[trigger] files[j]).episode_id
}

/// The show made of files whose own numbers are given, of an episode that was
/// found among the names, and of the directories around it. A show without a
/// title of its own is called like the outermost directory; without one, or
/// where an episode occurs twice, there is no show.
pub open spec fn show_from(
    files: Seq<TorrentFile>,
    ids: Seq<Option<EpisodeId>>,
    found: (Seq<char>, EpisodeId),
    parents: Seq<Seq<char>>,
) -> Option<ShowCandidateView> {
    let video_files = numbered_files(files, ids, found.1);
    if (found.0.len() == 0 && parents.len() == 0) || !distinct_episodes(video_files) {
        None
    } else {
        Some(
            ShowCandidateView {
                raw_title: if found.0.len() == 0 {
                    parents[0]
                } else {
                    found.0
                },
                season: found.1.season,
                episode: found.1.episode,
                video_files,
            },
        )
    }
}

/// The show that the names of some files suggest. The largest file leads.
pub open spec fn show_candidate_of(files: Seq<TorrentFile>) -> Option<ShowCandidateView> {
    let path = files[largest_index(files)].name@;
    match first_episode(sources_of(path)) {
        Some(found) => show_from(files, own_ids(files), found, parent_components_of(path)),
        None => None,
    }
}

/// The movie that the names of some files suggest: there has to be one file only.
pub open spec fn movie_from(
    files: Seq<TorrentFile>,
    movie: Option<(Seq<char>, Option<u32>)>,
) -> Option<MovieCandidateView> {
    match movie {
        Some(m) if files.len() == 1 => Some(
            MovieCandidateView { raw_title: m.0, year_hint: m.1, video_files: files },
        ),
        _ => None,
    }
}

/// The movie that the names of some files suggest.
pub open spec fn movie_candidate_of(files: Seq<TorrentFile>) -> Option<MovieCandidateView> {
    movie_from(files, movie_of(stem_or_empty_of(files[0].name@)))
}

/// Whether the largest file's own name describes an episode.
pub open spec fn has_markers(files: Seq<TorrentFile>) -> bool {
    episode_of(largest_stem(files)) is Some
}

/// Whether an episode occurs among some files.
fn has_episode(files: &Vec<ShowFile>, id: EpisodeId) -> (r: bool)
    ensures
        r == exists|i: int| 0 <= i < files@.len() && (#[trigger] files@[i]).episode_id == id,
{
    let mut i: usize = 0;
    while i < files.len()
        invariant
            i <= files.len(),
            forall|j: int| 0 <= j < i ==> (#[trigger] files@[j]).episode_id != id,
        decreases files.len() - i,
    {
        if files[i].episode_id == id {
            return true;
        }
        i += 1;
    }
    false
}

impl ShowCandidate {
    /// Makes a show of files whose own numbers are given, of an episode that was
    /// found among the names, and of the directories around it.
    pub fn assemble(
        files: &[TorrentFile],
        ids: &Vec<Option<EpisodeId>>,
        found: EpisodeMetadata,
        parents: &Vec<String>,
    ) -> (r: Option<Self>)
        requires
            ids@.len() == files@.len(),
        ensures
            view_of(r) == show_from(files@, ids@, found@, texts(parents@)),
    {
        let ghost all = numbered_files(files@, ids@, found.episode);
        let raw_title = if found.show.as_str().is_empty() {
            if parents.len() == 0 {
                return None;
            }
            assert(parents@[0]@ == texts(parents@)[0]);
            parents[0].clone()
        } else {
            found.show
        };
        let mut video_files: Vec<ShowFile> = Vec::new();
        let mut i: usize = 0;
        while i < files.len()
            invariant
                i <= files.len(),
                ids@.len() == files@.len(),
                all == numbered_files(files@, ids@, found.episode),
                video_files@ == all.take(i as int),
                distinct_episodes(all.take(i as int)),
            decreases files.len() - i,
        {
            let episode_id = match ids[i] {
                Some(id) => id,
                None => found.episode,
            };
            if has_episode(&video_files, episode_id) {
                proof {
                    let j = choose|j: int|
                        0 <= j < video_files@.len() && (
                        #[trigger] video_files@[j]).episode_id == episode_id;
                    assert(all[j] == all.take(i as int)[j]);
                    assert(all[j].episode_id == all[i as int].episode_id);
                    assert(!distinct_episodes(all));
                }
                return None;
            }
            let ghost before = video_files@;
            video_files.push(ShowFile { file: files[i].clone(), episode_id });
            i += 1;
            proof {
                assert(video_files@ == all.take(i as int));
                assert forall|a: int, b: int| 0 <= a < b < i implies (
                #[trigger] all.take(i as int)[a]).episode_id != (
                #[trigger] all.take(i as int)[b]).episode_id by {
                    if b < i - 1 {
                        assert(all.take(i - 1)[a].episode_id != all.take(i - 1)[b].episode_id);
                    } else {
                        assert(before[a] == all[a]);
                    }
                }
            }
        }
        assert(all.take(all.len() as int) == all);
        Some(
            ShowCandidate {
                raw_title,
                season: found.episode.season,
                episode: found.episode.episode,
                video_files,
            },
        )
    }
}

impl MovieCandidate {
    /// Makes a movie of a single file and what its name says.
    pub fn assemble(files: &[TorrentFile], movie: Option<MovieMetadata>) -> (r: Option<Self>)
        ensures
            view_of(r) == movie_from(files@, view_of(movie)),
    {
        match movie {
            Some(m) => {
                if files.len() != 1 {
                    return None;
                }
                Some(
                    MovieCandidate {
                        raw_title: m.title,
                        year_hint: m.year,
                        video_files: copy_files(files),
                    },
                )
            },
            None => None,
        }
    }
}

/// The numbers of the episodes in the files' own names.
fn ids_of(files: &[TorrentFile]) -> (r: Vec<Option<EpisodeId>>)
    ensures
        r@ == own_ids(files@),
{
    let mut r: Vec<Option<EpisodeId>> = Vec::new();
    let mut i: usize = 0;
    while i < files.len()
        invariant
            i <= files.len(),
            r@ == own_ids(files@.take(i as int)),
        decreases files.len() - i,
    {
        let stem = stem_or_empty(files[i].name.as_str());
        r.push(EpisodeId::from_filename(stem.as_str()));
        i += 1;
        assert(r@ == own_ids(files@.take(i as int)));
    }
    assert(files@.take(files@.len() as int) == files@);
    r
}

/// The show that the names of some files suggest.
///
/// An episode is looked for in the name of the largest file, then in the names of
/// the directories above it, innermost first. Each file keeps the number in its
/// own name; a file without one gets the number that was found.
pub fn try_show(video_files: &[TorrentFile]) -> (r: Option<ShowCandidate>)
    requires
        video_files@.len() > 0,
    ensures
        view_of(r) == show_candidate_of(video_files@),
{
    let largest = largest_file(video_files);
    let parents = parent_components(largest.name.as_str());
    let stem = stem_or_empty(largest.name.as_str());
    let ghost sources = sources_of(largest.name@);
    let mut found = EpisodeMetadata::from_filename(stem.as_str());
    assert(sources[0] == stem@);
    let mut left: usize = parents.len();
    assert(sources.drop_first() == texts(parents@).take(left as int).reverse());
    while left > 0 && found.is_none()
        invariant
            left <= parents.len(),
            match view_of(found) {
                Some(m) => first_episode(sources) == Some(m),
                None => first_episode(sources) == first_episode(
                    texts(parents@).take(left as int).reverse(),
                ),
            },
        decreases left,
    {
        proof {
            let rest = texts(parents@).take(left as int).reverse();
            assert(rest[0] == parents@[left - 1]@);
            assert(rest.drop_first() == texts(parents@).take(left - 1).reverse());
        }
        left -= 1;
        found = EpisodeMetadata::from_filename(parents[left].as_str());
    }
    match found {
        Some(m) => {
            let ids = ids_of(video_files);
            ShowCandidate::assemble(video_files, &ids, m, &parents)
        },
        None => None,
    }
}

/// The movie that the name of a single file suggests; several files are no movie.
pub fn try_movie(video_files: &[TorrentFile]) -> (r: Option<MovieCandidate>)
    ensures
        view_of(r) == movie_candidate_of(video_files@),
{
    if video_files.len() != 1 {
        return None;
    }
    let stem = stem_or_empty(video_files[0].name.as_str());
    MovieCandidate::assemble(video_files, MovieMetadata::from_filename(stem.as_str()))
}

/// Whether the name of the largest file describes an episode.
pub fn has_episode_markers(files: &[TorrentFile]) -> (r: bool)
    requires
        files@.len() > 0,
    ensures
        r == has_markers(files@),
{
    let stem = stem_or_empty(largest_file(files).name.as_str());
    EpisodeMetadata::from_filename(stem.as_str()).is_some()
}

// ── classification ───────────────────────────────────────────────────────────

/// How a torrent is classified. All of its files are kept, so that nothing is
/// lost when the torrent is linked as it is.
#[derive(Debug)]
pub struct Classification {
    pub all_files: Vec<TorrentFile>,
    pub kind: ClassificationKind,
}

/// What a torrent holds.
#[derive(Debug)]
pub enum ClassificationKind {
    Show(ShowResult),
    Movie(MovieResult),
    Other,
}

/// A confirmed show.
#[derive(Debug)]
pub struct ShowResult {
    pub meta: ShowMeta,
    /// Videos only, without samples and bonus material, each with the number of
    /// its episode.
    pub video_files: Vec<ShowFile>,
}

/// A confirmed movie.
#[derive(Debug)]
pub struct MovieResult {
    pub meta: MovieMeta,
    /// Videos only, without samples and bonus material.
    pub video_files: Vec<TorrentFile>,
}

/// A copy of a list of files of a show.
fn copy_show_files(files: &[ShowFile]) -> (r: Vec<ShowFile>)
    ensures
        r@ == files@,
{
    let mut r: Vec<ShowFile> = Vec::new();
    let mut i: usize = 0;
    while i < files.len()
        invariant
            i <= files.len(),
            r@ == files@.take(i as int),
        decreases files.len() - i,
    {
        r.push(files[i].clone());
        i += 1;
        assert(r@ == files@.take(i as int));
    }
    r
}

impl Clone for ShowResult {
    fn clone(&self) -> (r: Self)
        ensures
            r.meta == self.meta,
            r.video_files@ == self.video_files@,
    {
        ShowResult {
            meta: self.meta.clone(),
            video_files: copy_show_files(self.video_files.as_slice()),
        }
    }
}

impl Clone for MovieResult {
    fn clone(&self) -> (r: Self)
        ensures
            r.meta == self.meta,
            r.video_files@ == self.video_files@,
    {
        MovieResult {
            meta: self.meta.clone(),
            video_files: copy_files(self.video_files.as_slice()),
        }
    }
}

/// A torrent that is a show if the metadata of its candidate are found.
#[derive(Debug)]
pub struct PendingShow {
    pub all_files: Vec<TorrentFile>,
    pub video_files: Vec<TorrentFile>,
    pub candidate: ShowCandidate,
}

/// A torrent that is a movie if the metadata of its candidate are found.
#[derive(Debug)]
pub struct PendingMovie {
    pub all_files: Vec<TorrentFile>,
    pub candidate: MovieCandidate,
}

/// What is to be done next to classify a torrent.
#[derive(Debug)]
pub enum ClassifyStep {
    /// Look up the show, without a year, and resume.
    EnrichShow(PendingShow),
    /// Look up the movie, with the year in its name, and resume.
    EnrichMovie(PendingMovie),
    /// Nothing: the torrent is classified.
    Done(Classification),
}

/// What a [`ClassificationKind`] holds.
#[verifier::ext_equal]
pub enum KindView {
    Show { show: ShowMeta, episodes: Seq<ShowFile> },
    Movie { movie: MovieMeta, videos: Seq<TorrentFile> },
    Other,
}

/// What a [`ClassifyStep`] holds.
#[verifier::ext_equal]
pub enum StepView {
    EnrichShow {
        all_files: Seq<TorrentFile>,
        video_files: Seq<TorrentFile>,
        show: ShowCandidateView,
    },
    EnrichMovie { all_files: Seq<TorrentFile>, movie: MovieCandidateView },
    Done { all_files: Seq<TorrentFile>, kind: KindView },
}

impl View for ClassificationKind {
    type V = KindView;

    open spec fn view(&self) -> KindView {
        match *self {
            ClassificationKind::Show(r) => KindView::Show {
                show: r.meta,
                episodes: r.video_files@,
            },
            ClassificationKind::Movie(r) => KindView::Movie {
                movie: r.meta,
                videos: r.video_files@,
            },
            ClassificationKind::Other => KindView::Other,
        }
    }
}

impl View for ClassifyStep {
    type V = StepView;

    open spec fn view(&self) -> StepView {
        match *self {
            ClassifyStep::EnrichShow(p) => StepView::EnrichShow {
                all_files: p.all_files@,
                video_files: p.video_files@,
                show: p.candidate@,
            },
            ClassifyStep::EnrichMovie(p) => StepView::EnrichMovie {
                all_files: p.all_files@,
                movie: p.candidate@,
            },
            ClassifyStep::Done(c) => StepView::Done { all_files: c.all_files@, kind: c.kind@ },
        }
    }
}

/// Whether an IMDB ID is on the blacklist.
pub open spec fn is_on_blacklist(imdb_id: Option<Seq<char>>, blacklist: Seq<Seq<char>>) -> bool {
    match imdb_id {
        Some(id) => blacklist.contains(id),
        None => false,
    }
}

/// The first step for a torrent with the given files.
pub open spec fn first_step(all_files: Seq<TorrentFile>) -> StepView {
    let video_files = videos_of(all_files);
    if video_files.len() == 0 {
        StepView::Done { all_files, kind: KindView::Other }
    } else {
        match show_candidate_of(video_files) {
            Some(show) => StepView::EnrichShow { all_files, video_files, show },
            None => movie_step(all_files, video_files),
        }
    }
}

/// The step for a torrent that is no show.
pub open spec fn movie_step(
    all_files: Seq<TorrentFile>,
    video_files: Seq<TorrentFile>,
) -> StepView {
    match movie_candidate_of(video_files) {
        Some(movie) if !has_markers(video_files) => StepView::EnrichMovie { all_files, movie },
        _ => StepView::Done { all_files, kind: KindView::Other },
    }
}

/// The step after the lookup of a show. A show that is not found may still be a
/// movie; one on the blacklist is neither.
pub open spec fn step_after_show(
    all_files: Seq<TorrentFile>,
    video_files: Seq<TorrentFile>,
    candidate: ShowCandidateView,
    meta: Option<ShowMeta>,
    blacklist: Seq<Seq<char>>,
) -> StepView {
    match meta {
        Some(m) => StepView::Done {
            all_files,
            kind: if is_on_blacklist(view_of(m.imdb_id), blacklist) {
                KindView::Other
            } else {
                KindView::Show { show: m, episodes: candidate.video_files }
            },
        },
        None => movie_step(all_files, video_files),
    }
}

/// What a torrent holds, after the lookup of a movie.
pub open spec fn kind_after_movie(
    candidate: MovieCandidateView,
    meta: Option<MovieMeta>,
    blacklist: Seq<Seq<char>>,
) -> KindView {
    match meta {
        Some(m) if !is_on_blacklist(view_of(m.imdb_id), blacklist) => KindView::Movie {
            movie: m,
            videos: candidate.video_files,
        },
        _ => KindView::Other,
    }
}

/// What a torrent is classified as, and the files that are kept of it, if the
/// lookups that are made give `show` and `movie`.
pub open spec fn outcome(
    files: Seq<TorrentFile>,
    show: Option<ShowMeta>,
    movie: Option<MovieMeta>,
    blacklist: Seq<Seq<char>>,
) -> (Seq<TorrentFile>, KindView) {
    let second = match first_step(files) {
        StepView::EnrichShow { all_files, video_files, show: candidate } => step_after_show(
            all_files,
            video_files,
            candidate,
            show,
            blacklist,
        ),
        step => step,
    };
    match second {
        StepView::EnrichMovie { all_files, movie: candidate } => (
            all_files,
            kind_after_movie(candidate, movie, blacklist),
        ),
        StepView::Done { all_files, kind } => (all_files, kind),
        StepView::EnrichShow { all_files, .. } => (all_files, KindView::Other),
    }
}

/// Whether an IMDB ID is on the blacklist.
pub fn is_blacklisted(imdb_id: Option<&str>, blacklist: &[String]) -> (r: bool)
    ensures
        r == is_on_blacklist(view_of(imdb_id), texts(blacklist@)),
{
    let id = match imdb_id {
        Some(id) => id,
        None => return false,
    };
    let mut i: usize = 0;
    while i < blacklist.len()
        invariant
            i <= blacklist.len(),
            imdb_id == Some(id),
            forall|j: int| 0 <= j < i ==> #[trigger] texts(blacklist@)[j] != id@,
        decreases blacklist.len() - i,
    {
        assert(texts(blacklist@)[i as int] == blacklist@[i as int]@);
        if same_text(blacklist[i].as_str(), id) {
            assert(texts(blacklist@).contains(id@));
            return true;
        }
        i += 1;
    }
    false
}

/// Whether an optional IMDB ID is on the blacklist.
fn rejected(imdb_id: &Option<String>, blacklist: &[String]) -> (r: bool)
    ensures
        r == is_on_blacklist(view_of(*imdb_id), texts(blacklist@)),
{
    match imdb_id {
        Some(id) => is_blacklisted(Some(id.as_str()), blacklist),
        None => false,
    }
}

/// The step for a torrent that is no show.
fn continue_with_movie(all_files: Vec<TorrentFile>, video_files: &[TorrentFile]) -> (r:
    ClassifyStep)
    requires
        video_files@.len() > 0,
    ensures
        r@ == movie_step(all_files@, video_files@),
{
    if !has_episode_markers(video_files) {
        if let Some(candidate) = try_movie(video_files) {
            return ClassifyStep::EnrichMovie(PendingMovie { all_files, candidate });
        }
    }
    ClassifyStep::Done(Classification { all_files, kind: ClassificationKind::Other })
}

/// Classifies a torrent by the names of its files, as far as that is possible
/// without a lookup.
///
/// A torrent that looks like a show has its metadata looked up first; a torrent
/// that is no show, and whose largest file has no episode marker, may be a movie;
/// all others are neither.
pub fn classify(info: TorrentInfo) -> (r: ClassifyStep)
    ensures
        r@ == first_step(info.files@),
{
    let all_files = info.files;
    let video_files = filter_video_files(all_files.as_slice());
    if video_files.len() == 0 {
        return ClassifyStep::Done(
            Classification { all_files, kind: ClassificationKind::Other },
        );
    }
    match try_show(video_files.as_slice()) {
        Some(candidate) => ClassifyStep::EnrichShow(
            PendingShow { all_files, video_files, candidate },
        ),
        None => continue_with_movie(all_files, video_files.as_slice()),
    }
}

impl PendingShow {
    /// Continues with the metadata of the show, if they were found. A show whose
    /// IMDB ID is on the blacklist makes the torrent neither show nor movie.
    pub fn resume(self, meta: Option<ShowMeta>, imdb_blacklist: &[String]) -> (r: ClassifyStep)
        requires
            self.video_files@.len() > 0,
        ensures
            r@ == step_after_show(
                self.all_files@,
                self.video_files@,
                self.candidate@,
                meta,
                texts(imdb_blacklist@),
            ),
    {
        let PendingShow { all_files, video_files, candidate } = self;
        match meta {
            Some(meta) => {
                if rejected(&meta.imdb_id, imdb_blacklist) {
                    return ClassifyStep::Done(
                        Classification { all_files, kind: ClassificationKind::Other },
                    );
                }
                ClassifyStep::Done(
                    Classification {
                        all_files,
                        kind: ClassificationKind::Show(
                            ShowResult { meta, video_files: candidate.video_files },
                        ),
                    },
                )
            },
            None => continue_with_movie(all_files, video_files.as_slice()),
        }
    }
}

impl PendingMovie {
    /// Finishes with the metadata of the movie, if they were found.
    pub fn resume(self, meta: Option<MovieMeta>, imdb_blacklist: &[String]) -> (r: Classification)
        ensures
            r.all_files@ == self.all_files@,
            r.kind@ == kind_after_movie(self.candidate@, meta, texts(imdb_blacklist@)),
    {
        let PendingMovie { all_files, candidate } = self;
        let kind = match meta {
            Some(meta) => {
                if rejected(&meta.imdb_id, imdb_blacklist) {
                    ClassificationKind::Other
                } else {
                    ClassificationKind::Movie(
                        MovieResult { meta, video_files: candidate.video_files },
                    )
                }
            },
            None => ClassificationKind::Other,
        };
        Classification { all_files, kind }
    }
}

/// Classifies a torrent if the answers to the lookups are known beforehand.
pub fn classify_with(
    info: TorrentInfo,
    show: Option<ShowMeta>,
    movie: Option<MovieMeta>,
    imdb_blacklist: &[String],
) -> (r: Classification)
    ensures
        (r.all_files@, r.kind@) == outcome(info.files@, show, movie, texts(imdb_blacklist@)),
{
    let second = match classify(info) {
        ClassifyStep::EnrichShow(pending) => pending.resume(show, imdb_blacklist),
        step => step,
    };
    match second {
        ClassifyStep::EnrichMovie(pending) => pending.resume(movie, imdb_blacklist),
        ClassifyStep::Done(classification) => classification,
        ClassifyStep::EnrichShow(pending) => Classification {
            all_files: pending.all_files,
            kind: ClassificationKind::Other,
        },
    }
}

// ── laws ─────────────────────────────────────────────────────────────────────

/// The file at [`largest_index`] is at least as large as every file, and larger
/// than every file behind it.
pub proof fn largest_is_last_of_the_largest(files: Seq<TorrentFile>)
    requires
        files.len() > 0,
    ensures
        0 <= largest_index(files) < files.len(),
        forall|i: int|
            0 <= i < files.len() ==> (#[trigger] files[i]).length <= files[largest_index(
                files,
            )].length,
        forall|i: int|
            largest_index(files) < i < files.len() ==> (#[trigger] files[i]).length < files[
            largest_index(files)].length,
    decreases files.len(),
{
    if files.len() > 1 {
        let front = files.drop_last();
        largest_is_last_of_the_largest(front);
        assert forall|i: int| 0 <= i < files.len() implies (#[trigger] files[i]).length <= files[
        largest_index(files)].length by {
            if i < front.len() {
                assert(front[i] == files[i]);
            }
        }
        assert forall|i: int| largest_index(files) < i < files.len() implies (
        #[trigger] files[i]).length < files[largest_index(files)].length by {
            if i < front.len() {
                assert(front[i] == files[i]);
            }
        }
    }
}

/// No file of a torrent is lost, however the torrent is classified.
pub proof fn classification_keeps_all_files(
    files: Seq<TorrentFile>,
    show: Option<ShowMeta>,
    movie: Option<MovieMeta>,
    blacklist: Seq<Seq<char>>,
)
    ensures
        outcome(files, show, movie, blacklist).0 == files,
{
}

/// The files of a show are those files of the torrent that are videos and neither
/// samples nor bonus material, in their order; no episode occurs twice; and each
/// has the number in its own name, or else the number with which the show was
/// looked up.
pub proof fn show_files_are_the_videos(
    files: Seq<TorrentFile>,
    show: Option<ShowMeta>,
    movie: Option<MovieMeta>,
    blacklist: Seq<Seq<char>>,
)
    requires
        outcome(files, show, movie, blacklist).1 is Show,
    ensures
        ({
            let shown = outcome(files, show, movie, blacklist).1->episodes;
            &&& shown.map_values(|f: ShowFile| f.file) == videos_of(files)
            &&& distinct_episodes(shown)
            &&& first_step(files) matches StepView::EnrichShow { show: asked, .. } && forall|i: int|
                0 <= i < shown.len() ==> (#[trigger] shown[i]).episode_id == match own_id(
                    shown[i].file,
                ) {
                    Some(id) => id,
                    None => EpisodeId { season: asked.season, episode: asked.episode },
                }
        }),
{
    let videos = videos_of(files);
    let shown = outcome(files, show, movie, blacklist).1->episodes;
    assert(shown.map_values(|f: ShowFile| f.file) == videos);
    assert(forall|i: int|
        0 <= i < videos.len() ==> #[trigger] own_ids(videos)[i] == own_id(videos[i]));
}

/// A movie is a single file: the only one of the torrent that is a video and
/// neither a sample nor bonus material. Its name holds no episode marker.
pub proof fn movie_is_the_only_video(
    files: Seq<TorrentFile>,
    show: Option<ShowMeta>,
    movie: Option<MovieMeta>,
    blacklist: Seq<Seq<char>>,
)
    requires
        outcome(files, show, movie, blacklist).1 is Movie,
    ensures
        outcome(files, show, movie, blacklist).1->videos == videos_of(files),
        videos_of(files).len() == 1,
        own_id(videos_of(files)[0]) is None,
{
}

/// Every file that is linked as part of a show or a movie is a video of the
/// torrent and neither a sample nor bonus material.
pub proof fn linked_videos_are_kept_files(files: Seq<TorrentFile>, file: TorrentFile)
    ensures
        videos_of(files).contains(file) <==> files.contains(file) && is_kept(file),
{
    let keep = |f: TorrentFile| is_kept(f);
    let videos = files.filter(keep);
    if videos.contains(file) {
        let i = choose|i: int| 0 <= i < videos.len() && videos[i] == file;
        files.lemma_filter_pred(keep, i);
        files.lemma_filter_contains_rev(keep, file);
    }
    if files.contains(file) && is_kept(file) {
        let i = choose|i: int| 0 <= i < files.len() && files[i] == file;
        files.lemma_filter_contains(keep, i);
    }
}

/// A show or movie whose IMDB ID is on the blacklist is never the outcome; and a
/// torrent that turns out to be such a show is nothing else either.
pub proof fn blacklisted_is_neither_show_nor_movie(
    files: Seq<TorrentFile>,
    show: Option<ShowMeta>,
    movie: Option<MovieMeta>,
    blacklist: Seq<Seq<char>>,
)
    ensures
        match outcome(files, show, movie, blacklist).1 {
            KindView::Show { show, .. } => !is_on_blacklist(view_of(show.imdb_id), blacklist),
            KindView::Movie { movie, .. } => !is_on_blacklist(view_of(movie.imdb_id), blacklist),
            KindView::Other => true,
        },
        first_step(files) is EnrichShow && (show matches Some(meta) && is_on_blacklist(
            view_of(meta.imdb_id),
            blacklist,
        )) ==> outcome(files, show, movie, blacklist).1 == KindView::Other,
{
}

/// A torrent without videos that count needs no lookup, and holds neither a show
/// nor a movie.
pub proof fn torrent_without_videos_is_other(files: Seq<TorrentFile>)
    requires
        forall|i: int| 0 <= i < files.len() ==> !is_kept(#[trigger] files[i]),
    ensures
        first_step(files) == (StepView::Done { all_files: files, kind: KindView::Other }),
{
    let keep = |f: TorrentFile| is_kept(f);
    if videos_of(files).len() > 0 {
        linked_videos_are_kept_files(files, videos_of(files)[0]);
        assert(videos_of(files).contains(videos_of(files)[0]));
        assert(false);
    }
}

/// What stands for a candidate, a result and a step leaves nothing out.
pub proof fn steps_show_everything(
    show: ShowResult,
    movie: MovieResult,
    pending_show: PendingShow,
    pending_movie: PendingMovie,
    done: Classification,
)
    ensures
        pending_show.candidate@.raw_title == pending_show.candidate.raw_title@,
        pending_show.candidate@.season == pending_show.candidate.season,
        pending_show.candidate@.episode == pending_show.candidate.episode,
        pending_show.candidate@.video_files == pending_show.candidate.video_files@,
        pending_movie.candidate@.raw_title == pending_movie.candidate.raw_title@,
        pending_movie.candidate@.year_hint == pending_movie.candidate.year_hint,
        pending_movie.candidate@.video_files == pending_movie.candidate.video_files@,
        ClassificationKind::Show(show)@ == (KindView::Show {
            show: show.meta,
            episodes: show.video_files@,
        }),
        ClassificationKind::Movie(movie)@ == (KindView::Movie {
            movie: movie.meta,
            videos: movie.video_files@,
        }),
        ClassificationKind::Other@ == KindView::Other,
        ClassifyStep::EnrichShow(pending_show)@ == (StepView::EnrichShow {
            all_files: pending_show.all_files@,
            video_files: pending_show.video_files@,
            show: pending_show.candidate@,
        }),
        ClassifyStep::EnrichMovie(pending_movie)@ == (StepView::EnrichMovie {
            all_files: pending_movie.all_files@,
            movie: pending_movie.candidate@,
        }),
        ClassifyStep::Done(done)@ == (StepView::Done {
            all_files: done.all_files@,
            kind: done.kind@,
        }),
{
}

/// A file is a video exactly if its extension is one of six; it is a sample exactly if it
/// is smaller than 50 MiB or `sample` stands in its stem, in whatever case; it is bonus
/// material exactly if its stem, or the name of any directory above it, says so.
pub proof fn files_are_told_apart(file: TorrentFile)
    ensures
        is_video_file(file) <==> (extension_of(file.name@) matches Some(ext) && (ext == "mkv"@
            || ext == "mp4"@ || ext == "avi"@ || ext == "mov"@ || ext == "wmv"@ || ext == "m4v"@)),
        is_sample_file(file) <==> file.length < 50 * 1024 * 1024 || (stem_of(
            file.name@,
        ) matches Some(stem) && exists|i: int|
            0 <= i && i + 6 <= lowercase(stem).len() && #[trigger] lowercase(stem).subrange(
                i,
                i + 6,
            ) == "sample"@),
        is_extra_file(file) <==> (stem_of(file.name@) matches Some(stem) && regex_is_match(
            EXTRAS_PAT@,
            stem,
        )) || (exists|i: int|
            0 <= i < parent_components_of(file.name@).len() && regex_is_match(
                EXTRAS_PAT@,
                #[trigger] parent_components_of(file.name@)[i],
            )),
{
    reveal_strlit("sample");
    let parents = parent_components_of(file.name@);
    if let Some(stem) = stem_of(file.name@) {
        let lowered = lowercase(stem);
        if has_part(lowered, "sample"@) {
            let i = choose|i: int|
                0 <= i <= lowered.len() - "sample"@.len() && #[trigger] lowered.subrange(
                    i,
                    i + "sample"@.len(),
                ) == "sample"@;
            assert(lowered.subrange(i, i + 6) == "sample"@);
        }
        if exists|i: int|
            0 <= i && i + 6 <= lowered.len() && #[trigger] lowered.subrange(i, i + 6)
                == "sample"@ {
            let i = choose|i: int|
                0 <= i && i + 6 <= lowered.len() && #[trigger] lowered.subrange(i, i + 6)
                    == "sample"@;
            assert(lowered.subrange(i, i + "sample"@.len()) == "sample"@);
        }
    }
    if exists|i: int|
        0 <= i < parents.len() && regex_is_match(EXTRAS_PAT@, #[trigger] parents[i]) {
        let i = choose|i: int|
            0 <= i < parents.len() && regex_is_match(EXTRAS_PAT@, #[trigger] parents[i]);
        assert(is_extra_name(parents[i]));
    }
}

/// Of a torrent's files, each that is a video and neither a sample nor bonus material
/// counts, in their order.
pub proof fn videos_are_kept_in_order(files: Seq<TorrentFile>, file: TorrentFile)
    ensures
        videos_of(Seq::empty()).len() == 0,
        videos_of(files.push(file)) == (if is_video_file(file) && !is_sample_file(file)
            && !is_extra_file(file) {
            videos_of(files).push(file)
        } else {
            videos_of(files)
        }),
{
    reveal(Seq::filter);
    assert(files.push(file).drop_last() =~= files);
}

/// The first name that describes an episode is the one behind names that do not.
proof fn lemma_first_episode(sources: Seq<Seq<char>>, at: int)
    requires
        0 <= at <= sources.len(),
        forall|j: int| 0 <= j < at ==> episode_of(#[trigger] sources[j]) is None,
        at < sources.len() ==> episode_of(sources[at]) is Some,
    ensures
        first_episode(sources) == (if at < sources.len() {
            episode_of(sources[at])
        } else {
            None
        }),
    decreases at,
{
    if at > 0 {
        let rest = sources.drop_first();
        assert(episode_of(sources[0]) is None);
        assert(forall|j: int| 0 <= j < rest.len() ==> #[trigger] rest[j] == sources[j + 1]);
        lemma_first_episode(rest, at - 1);
    }
}

/// The show that some files suggest is described by the name of the largest of them, or
/// else by the innermost directory above it that describes an episode: `at` is where that
/// directory stands, or the number of directories for the file itself. The show has the
/// title found there, or that of the outermost directory where there is none, and the
/// numbers found there; each file has the number in its own name, or else those. There is
/// no such show exactly if there is no title, or two files have the same number.
pub proof fn nearest_name_describes_the_show(
    files: Seq<TorrentFile>,
    at: int,
    found: (Seq<char>, EpisodeId),
)
    requires
        files.len() > 0,
        ({
            let path = files[largest_index(files)].name@;
            let parents = parent_components_of(path);
            &&& 0 <= at <= parents.len()
            &&& episode_of(
                if at == parents.len() {
                    stem_or_empty_of(path)
                } else {
                    parents[at]
                },
            ) == Some(found)
            &&& at < parents.len() ==> episode_of(stem_or_empty_of(path)) is None
            &&& forall|j: int| at < j < parents.len() ==> episode_of(#[trigger] parents[j]) is None
        }),
    ensures
        ({
            let parents = parent_components_of(files[largest_index(files)].name@);
            let id = |i: int|
                match episode_of(stem_or_empty_of(files[i].name@)) {
                    Some(own) => own.1,
                    None => found.1,
                };
            match show_candidate_of(files) {
                Some(show) => {
                    &&& show.raw_title == (if found.0.len() > 0 {
                        found.0
                    } else {
                        parents[0]
                    })
                    &&& found.0.len() > 0 || parents.len() > 0
                    &&& show.season == found.1.season
                    &&& show.episode == found.1.episode
                    &&& show.video_files.len() == files.len()
                    &&& forall|i: int|
                        0 <= i < files.len() ==> (#[trigger] show.video_files[i]).file == files[i]
                            && show.video_files[i].episode_id == id(i)
                    &&& forall|i: int, j: int|
                        0 <= i < j < files.len() ==> #[trigger] id(i) != #[trigger] id(j)
                },
                None => {
                    ||| found.0.len() == 0 && parents.len() == 0
                    ||| exists|i: int, j: int|
                        0 <= i < j < files.len() && #[trigger] id(i) == #[trigger] id(j)
                },
            }
        }),
{
    let path = files[largest_index(files)].name@;
    let parents = parent_components_of(path);
    let sources = sources_of(path);
    let k = parents.len() - at;
    let id = |i: int|
        match episode_of(stem_or_empty_of(files[i].name@)) {
            Some(own) => own.1,
            None => found.1,
        };
    assert(sources[0] == stem_or_empty_of(path));
    assert(forall|j: int|
        1 <= j < sources.len() ==> #[trigger] sources[j] == parents[parents.len() - j]);
    lemma_first_episode(sources, k);
    let ids = own_ids(files);
    let shown = numbered_files(files, ids, found.1);
    assert(forall|i: int| 0 <= i < files.len() ==> #[trigger] ids[i] == own_id(files[i]));
    assert forall|i: int| 0 <= i < files.len() implies (#[trigger] shown[i]).file == files[i]
        && shown[i].episode_id == id(i) by {
        assert(ids[i] == own_id(files[i]));
    }
    assert(show_candidate_of(files) == show_from(files, ids, found, parents));
    if distinct_episodes(shown) {
        assert forall|i: int, j: int| 0 <= i < j < files.len() implies #[trigger] id(i)
            != #[trigger] id(j) by {
            assert(shown[i].episode_id != shown[j].episode_id);
        }
    } else {
        let (i, j) = choose|i: int, j: int|
            0 <= i < j < shown.len() && (#[trigger] shown[i]).episode_id == (
            #[trigger] shown[j]).episode_id;
        assert(id(i) == id(j));
    }
}

/// Files suggest no show if neither the name of the largest of them nor that of a
/// directory above it describes an episode.
pub proof fn show_needs_an_episode(files: Seq<TorrentFile>)
    requires
        files.len() > 0,
        episode_of(stem_or_empty_of(files[largest_index(files)].name@)) is None,
        forall|j: int|
            0 <= j < parent_components_of(files[largest_index(files)].name@).len() ==> episode_of(
                #[trigger] parent_components_of(files[largest_index(files)].name@)[j],
            ) is None,
    ensures
        show_candidate_of(files) is None,
{
    let path = files[largest_index(files)].name@;
    let parents = parent_components_of(path);
    let sources = sources_of(path);
    assert(sources[0] == stem_or_empty_of(path));
    assert(forall|j: int|
        1 <= j < sources.len() ==> #[trigger] sources[j] == parents[parents.len() - j]);
    lemma_first_episode(sources, sources.len() as int);
}

/// A torrent without videos is looked up no further; one that suggests a show has the show
/// looked up, with all that was found of it; one that does not has a movie looked up,
/// with the title and the year in the name of its video, exactly if there is one video
/// alone, its name has no episode marker, and it has a title.
pub proof fn names_decide_what_is_looked_up(files: Seq<TorrentFile>)
    ensures
        ({
            let videos = videos_of(files);
            let other = StepView::Done { all_files: files, kind: KindView::Other };
            let stem = stem_or_empty_of(videos[0].name@);
            &&& videos.len() == 0 ==> first_step(files) == other
            &&& videos.len() > 0 ==> (show_candidate_of(videos) matches Some(show) ==> first_step(
                files,
            ) == (StepView::EnrichShow { all_files: files, video_files: videos, show }))
            &&& videos.len() > 0 && show_candidate_of(videos) is None ==> first_step(files) == (
            match movie_of(stem) {
                Some(m) if videos.len() == 1 && episode_of(stem) is None => StepView::EnrichMovie {
                    all_files: files,
                    movie: MovieCandidateView {
                        raw_title: m.0,
                        year_hint: m.1,
                        video_files: videos,
                    },
                },
                _ => other,
            })
        }),
{
}

/// An ID is on the blacklist exactly if it is one of the entries; no ID never is.
pub proof fn blacklist_is_exact(id: Seq<char>, blacklist: Seq<Seq<char>>)
    ensures
        is_on_blacklist(Some(id), blacklist) <==> exists|i: int|
            0 <= i < blacklist.len() && #[trigger] blacklist[i] == id,
        !is_on_blacklist(None, blacklist),
{
}

/// A show that is looked up and found is the outcome, with what was found of it and the
/// files of its candidate, whatever else is on the blacklist.
pub proof fn found_show_is_the_outcome(
    files: Seq<TorrentFile>,
    meta: ShowMeta,
    movie: Option<MovieMeta>,
    blacklist: Seq<Seq<char>>,
)
    requires
        first_step(files) is EnrichShow,
        forall|i: int|
            0 <= i < blacklist.len() ==> (meta.imdb_id matches Some(id) ==> #[trigger] blacklist[i]
                != id@),
    ensures
        first_step(files) matches StepView::EnrichShow { show, .. } && outcome(
            files,
            Some(meta),
            movie,
            blacklist,
        ) == (files, (KindView::Show { show: meta, episodes: show.video_files })),
{
}

/// A movie that is looked up and found is the outcome, with what was found of it and the
/// only video of the torrent, whatever else is on the blacklist: it is looked up where
/// no show is suggested, and also where the show is not found.
pub proof fn found_movie_is_the_outcome(
    files: Seq<TorrentFile>,
    show: Option<ShowMeta>,
    meta: MovieMeta,
    blacklist: Seq<Seq<char>>,
)
    requires
        videos_of(files).len() == 1,
        episode_of(stem_or_empty_of(videos_of(files)[0].name@)) is None,
        movie_of(stem_or_empty_of(videos_of(files)[0].name@)) is Some,
        show_candidate_of(videos_of(files)) is None || show is None,
        forall|i: int|
            0 <= i < blacklist.len() ==> (meta.imdb_id matches Some(id) ==> #[trigger] blacklist[i]
                != id@),
    ensures
        outcome(files, show, Some(meta), blacklist) == (
            files,
            (KindView::Movie { movie: meta, videos: videos_of(files) }),
        ),
{
}

/// A torrent is neither show nor movie if no show is suggested or found, and no movie is
/// found, or there is not exactly one video, or its name has an episode marker or no title.
pub proof fn all_else_is_other(
    files: Seq<TorrentFile>,
    show: Option<ShowMeta>,
    movie: Option<MovieMeta>,
    blacklist: Seq<Seq<char>>,
)
    requires
        ({
            let videos = videos_of(files);
            let stem = stem_or_empty_of(videos[0].name@);
            &&& show is None || videos.len() == 0 || show_candidate_of(videos) is None
            &&& movie is None || videos.len() != 1 || episode_of(stem) is Some || movie_of(
                stem,
            ) is None
        }),
    ensures
        outcome(files, show, movie, blacklist) == (files, KindView::Other),
{
}

/// A torrent that is no show, and whose movie is on the blacklist, is neither.
pub proof fn blacklisted_movie_is_other(
    files: Seq<TorrentFile>,
    show: Option<ShowMeta>,
    meta: MovieMeta,
    blacklist: Seq<Seq<char>>,
    at: int,
)
    requires
        show is None || videos_of(files).len() == 0 || show_candidate_of(videos_of(files)) is None,
        0 <= at < blacklist.len(),
        meta.imdb_id matches Some(id) && id@ == blacklist[at],
    ensures
        outcome(files, show, Some(meta), blacklist) == (files, KindView::Other),
{
    assert(blacklist.contains(blacklist[at]));
}

/// A torrent whose show is found on the blacklist is neither show nor movie.
pub proof fn blacklisted_show_is_other(
    files: Seq<TorrentFile>,
    meta: ShowMeta,
    movie: Option<MovieMeta>,
    blacklist: Seq<Seq<char>>,
    at: int,
)
    requires
        first_step(files) is EnrichShow,
        0 <= at < blacklist.len(),
        meta.imdb_id matches Some(id) && id@ == blacklist[at],
    ensures
        outcome(files, Some(meta), movie, blacklist) == (files, KindView::Other),
{
    assert(blacklist.contains(blacklist[at]));
}

/// Files have an episode marker exactly if the name of the largest of them describes an
/// episode.
pub proof fn largest_file_has_the_marker(files: Seq<TorrentFile>)
    ensures
        has_markers(files) <==> episode_of(
            stem_or_empty_of(files[largest_index(files)].name@),
        ) is Some,
{
}

} // verus!
