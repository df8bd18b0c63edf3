//! From a classified torrent to the links for its files.

use vstd::prelude::*;

use crate::classifier::{
    linked_videos_are_kept_files, movie_is_the_only_video, outcome, show_files_are_the_videos,
    videos_of, Classification, ClassificationKind, KindView, ShowFile,
};
use crate::config::DirConfig;
use crate::linker::{
    link_movie, link_other, link_show, links_of, movie_links_of, other_links_of, show_links_of,
    show_links_do_not_collide, Link, LinkReport, LinkView,
};
use crate::path::joined_path;
use crate::tvdb::{MovieMeta, ShowMeta};
use crate::types::{TorrentFile, TorrentInfo};

verus! {

/// What the worker knows of its surroundings.
#[derive(Debug)]
pub struct PipelineContext {
    pub dirs: DirConfig,
    /// Whether links are only listed, not made.
    pub dry_run: bool,
    pub imdb_blacklist: Vec<String>,
}

/// What happens to the worker.
#[derive(Debug)]
pub enum WorkerEvent {
    /// The program is told to stop.
    Cancelled,
    /// No more torrents will arrive.
    Closed,
    /// A torrent has arrived.
    Received(TorrentInfo),
}

/// What the worker does.
#[derive(Debug)]
pub enum WorkerAction {
    /// Classify and link the torrent, and then wait for the next.
    Process(TorrentInfo),
    /// Write out the cache, and stop.
    FlushAndStop,
}

/// What the worker does next: torrents are worked on one after the other.
pub fn run_worker(event: WorkerEvent) -> (r: WorkerAction)
    ensures
        r == (match event {
            WorkerEvent::Cancelled | WorkerEvent::Closed => WorkerAction::FlushAndStop,
            WorkerEvent::Received(info) => WorkerAction::Process(info),
        }),
{
    match event {
        WorkerEvent::Cancelled | WorkerEvent::Closed => WorkerAction::FlushAndStop,
        WorkerEvent::Received(info) => WorkerAction::Process(info),
    }
}

/// How a torrent is handled.
#[derive(Debug, Clone, Copy, PartialEq, Eq, Structural)]
pub enum PlanKind {
    Show,
    Movie,
    Other,
    /// The torrent could not be classified, and is linked as it is.
    Failed,
}

/// The links for a torrent, and why there are these.
#[derive(Debug)]
pub struct Plan {
    pub kind: PlanKind,
    pub links: Vec<Link>,
    /// Whether the links are only to be listed.
    pub dry_run: bool,
}

/// How a torrent with the given classification is handled.
pub open spec fn plan_kind_of(kind: Option<KindView>) -> PlanKind {
    match kind {
        Some(KindView::Show { .. }) => PlanKind::Show,
        Some(KindView::Movie { .. }) => PlanKind::Movie,
        Some(KindView::Other) => PlanKind::Other,
        None => PlanKind::Failed,
    }
}

/// The links for a torrent with the given files and classification.
pub open spec fn planned_links(
    kind: Option<KindView>,
    all_files: Seq<TorrentFile>,
    download_dir: Seq<char>,
    dirs: DirConfig,
) -> Seq<LinkView> {
    match kind {
        Some(KindView::Show { show, episodes }) => show_links_of(
            show,
            episodes,
            download_dir,
            dirs.shows@,
        ),
        Some(KindView::Movie { movie, videos }) => movie_links_of(
            movie,
            videos,
            download_dir,
            dirs.movies@,
        ),
        Some(KindView::Other) | None => other_links_of(all_files, download_dir, dirs.other@),
    }
}

/// The word for a classification.
pub open spec fn label_of(kind: KindView) -> Seq<char> {
    match kind {
        KindView::Show { .. } => "show"@,
        KindView::Movie { .. } => "movie"@,
        KindView::Other => "other"@,
    }
}

/// The word for a classification.
pub fn kind_label(kind: &ClassificationKind) -> (r: &'static str)
    ensures
        r@ == label_of(kind@),
{
    match kind {
        ClassificationKind::Show(_) => "show",
        ClassificationKind::Movie(_) => "movie",
        ClassificationKind::Other => "other",
    }
}

/// The links for a torrent: to the episodes of a show, to a movie, or to all files
/// as they are. A torrent that could not be classified is linked as it is; then
/// `all_files` are its files.
pub fn run(
    classification: Option<Classification>,
    all_files: &[TorrentFile],
    download_dir: &str,
    ctx: &PipelineContext,
) -> (r: Plan)
    ensures
        r.dry_run == ctx.dry_run,
        r.kind == plan_kind_of(
            match classification {
                Some(c) => Some(c.kind@),
                None => None,
            },
        ),
        links_of(r.links@) == (match classification {
            Some(c) => planned_links(Some(c.kind@), c.all_files@, download_dir@, ctx.dirs),
            None => planned_links(None, all_files@, download_dir@, ctx.dirs),
        }),
{
    let dry_run = ctx.dry_run;
    match classification {
        None => Plan {
            kind: PlanKind::Failed,
            links: link_other(all_files, download_dir, &ctx.dirs),
            dry_run,
        },
        Some(Classification { all_files, kind }) => match kind {
            ClassificationKind::Show(result) => Plan {
                kind: PlanKind::Show,
                links: link_show(
                    &result.meta,
                    result.video_files.as_slice(),
                    download_dir,
                    &ctx.dirs,
                ),
                dry_run,
            },
            ClassificationKind::Movie(result) => Plan {
                kind: PlanKind::Movie,
                links: link_movie(
                    &result.meta,
                    result.video_files.as_slice(),
                    download_dir,
                    &ctx.dirs,
                ),
                dry_run,
            },
            ClassificationKind::Other => Plan {
                kind: PlanKind::Other,
                links: link_other(all_files.as_slice(), download_dir, &ctx.dirs),
                dry_run,
            },
        },
    }
}

/// Whether a torrent was processed to its end: it was classified, and each of its
/// links was made or is already there.
pub open spec fn is_processed(kind: PlanKind, reports: Seq<LinkReport>) -> bool {
    &&& kind != PlanKind::Failed
    &&& forall|i: int|
        0 <= i < reports.len() ==> #[trigger] reports[i] == LinkReport::Linked || reports[i]
            == LinkReport::AlreadyExists
}

/// Whether a torrent was processed to its end, by how the making of its links
/// ended. Links that are only listed have no reports.
pub fn processed(kind: PlanKind, reports: &[LinkReport]) -> (r: bool)
    ensures
        r == is_processed(kind, reports@),
{
    if kind == PlanKind::Failed {
        return false;
    }
    let mut i: usize = 0;
    while i < reports.len()
        invariant
            i <= reports.len(),
            forall|j: int|
                0 <= j < i ==> #[trigger] reports@[j] == LinkReport::Linked || reports@[j]
                    == LinkReport::AlreadyExists,
        decreases reports.len() - i,
    {
        match reports[i] {
            LinkReport::Linked | LinkReport::AlreadyExists => {},
            LinkReport::DirectoryFailed | LinkReport::LinkFailed => {
                return false;
            },
        }
        i += 1;
    }
    true
}

// ── laws ─────────────────────────────────────────────────────────────────────

/// A torrent that could not be classified is linked like one that is neither a
/// show nor a movie: every file is linked.
pub proof fn failure_is_linked_like_other(
    files: Seq<TorrentFile>,
    download_dir: Seq<char>,
    dirs: DirConfig,
)
    ensures
        planned_links(None, files, download_dir, dirs) == planned_links(
            Some(KindView::Other),
            files,
            download_dir,
            dirs,
        ),
        planned_links(None, files, download_dir, dirs).len() == files.len(),
{
}

/// However the lookups end, the links for a show have different destinations.
pub proof fn links_of_a_show_do_not_collide(
    files: Seq<TorrentFile>,
    show: Option<ShowMeta>,
    movie: Option<MovieMeta>,
    blacklist: Seq<Seq<char>>,
    download_dir: Seq<char>,
    dirs: DirConfig,
)
    requires
        outcome(files, show, movie, blacklist).1 is Show,
    ensures
        ({
            let links = planned_links(
                Some(outcome(files, show, movie, blacklist).1),
                files,
                download_dir,
                dirs,
            );
            forall|i: int, j: int|
                0 <= i < j < links.len() ==> (#[trigger] links[i]).dst != (
                #[trigger] links[j]).dst
        }),
{
    show_files_are_the_videos(files, show, movie, blacklist);
    if let KindView::Show { show: meta, episodes } = outcome(files, show, movie, blacklist).1 {
        show_links_do_not_collide(meta, episodes, download_dir, dirs.shows@);
    }
}

/// However the lookups end, every link leads to a file of the torrent.
pub proof fn links_lead_to_files_of_the_torrent(
    files: Seq<TorrentFile>,
    show: Option<ShowMeta>,
    movie: Option<MovieMeta>,
    blacklist: Seq<Seq<char>>,
    download_dir: Seq<char>,
    dirs: DirConfig,
    at: int,
)
    requires
        0 <= at < planned_links(
            Some(outcome(files, show, movie, blacklist).1),
            files,
            download_dir,
            dirs,
        ).len(),
    ensures
        exists|i: int|
            0 <= i < files.len() && planned_links(
                Some(outcome(files, show, movie, blacklist).1),
                files,
                download_dir,
                dirs,
            )[at].src == joined_path(download_dir, (#[trigger] files[i]).name@),
{
    let kind = outcome(files, show, movie, blacklist).1;
    let file = match kind {
        KindView::Show { episodes, .. } => episodes[at].file,
        KindView::Movie { videos, .. } => videos[at],
        KindView::Other => files[at],
    };
    if kind is Show {
        show_files_are_the_videos(files, show, movie, blacklist);
        let episodes = kind->episodes;
        assert(episodes.map_values(|f: ShowFile| f.file)[at] == file);
        assert(videos_of(files)[at] == file);
        linked_videos_are_kept_files(files, file);
    }
    if kind is Movie {
        movie_is_the_only_video(files, show, movie, blacklist);
        assert(videos_of(files)[at] == file);
        linked_videos_are_kept_files(files, file);
    }
    if kind is Other {
        assert(files.contains(file));
    }
    let i = choose|i: int| 0 <= i < files.len() && files[i] == file;
    assert(files[i].name@ == file.name@);
}

/// A show is linked in the directory for shows, a movie in that for movies, and all files of
/// any other torrent in that for others, as they are; the kinds are told apart.
pub proof fn links_go_where_they_belong(
    show: ShowMeta,
    episodes: Seq<ShowFile>,
    movie: MovieMeta,
    videos: Seq<TorrentFile>,
    files: Seq<TorrentFile>,
    download_dir: Seq<char>,
    dirs: DirConfig,
)
    ensures
        ({
            let shown = KindView::Show { show, episodes };
            let filmed = KindView::Movie { movie, videos };
            &&& planned_links(Some(shown), files, download_dir, dirs) == show_links_of(
                show,
                episodes,
                download_dir,
                dirs.shows@,
            )
            &&& planned_links(Some(filmed), files, download_dir, dirs) == movie_links_of(
                movie,
                videos,
                download_dir,
                dirs.movies@,
            )
            &&& planned_links(Some(KindView::Other), files, download_dir, dirs) == other_links_of(
                files,
                download_dir,
                dirs.other@,
            )
            &&& plan_kind_of(Some(shown)) == PlanKind::Show
            &&& plan_kind_of(Some(filmed)) == PlanKind::Movie
            &&& plan_kind_of(Some(KindView::Other)) == PlanKind::Other
            &&& plan_kind_of(None) == PlanKind::Failed
            &&& label_of(shown) == "show"@
            &&& label_of(filmed) == "movie"@
            &&& label_of(KindView::Other) == "other"@
        }),
{
}

/// A torrent was processed to its end exactly if it was classified and none of its links
/// failed, nor a directory for one.
pub proof fn failures_are_not_processed(kind: PlanKind, reports: Seq<LinkReport>)
    ensures
        is_processed(kind, reports) <==> kind != PlanKind::Failed && forall|i: int|
            0 <= i < reports.len() ==> #[trigger] reports[i] != LinkReport::DirectoryFailed
                && reports[i] != LinkReport::LinkFailed,
{
    if is_processed(kind, reports) {
        assert forall|i: int| 0 <= i < reports.len() implies #[trigger] reports[i]
            != LinkReport::DirectoryFailed && reports[i] != LinkReport::LinkFailed by {
            assert(reports[i] == LinkReport::Linked || reports[i] == LinkReport::AlreadyExists);
        }
    }
}

} // verus!
