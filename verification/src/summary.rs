//! What is shown of a classified torrent.

use vstd::prelude::*;

use crate::classifier::{Classification, ClassificationKind, KindView, ShowFile};
use crate::linker::{movie_dest, movie_dest_of, show_dest, show_dest_of};
use crate::pipeline::{plan_kind_of, PlanKind};
use crate::text::view_of;
use crate::tvdb::{MovieMeta, ShowMeta};
use crate::types::TorrentFile;

verus! {

/// A file, and where it would be linked.
#[derive(Debug)]
pub struct SummaryRow {
    pub name: String,
    pub length: u64,
    pub dest: Option<String>,
}

/// What a [`SummaryRow`] holds.
#[verifier::ext_equal]
pub struct RowView {
    pub name: String,
    pub length: u64,
    pub dest: Option<Seq<char>>,
}

impl View for SummaryRow {
    type V = RowView;

    open spec fn view(&self) -> RowView {
        RowView { name: self.name, length: self.length, dest: view_of(self.dest) }
    }
}

/// What a sequence of rows holds.
pub open spec fn rows_of(rows: Seq<SummaryRow>) -> Seq<RowView> {
    rows.map_values(|r: SummaryRow| r@)
}

/// What is shown of a torrent: what it holds, the files that are linked, and how
/// many files there are in all.
#[derive(Debug)]
pub struct Summary {
    pub kind: PlanKind,
    pub rows: Vec<SummaryRow>,
    pub total: usize,
}

/// The rows for the files of a show.
pub open spec fn show_rows(meta: ShowMeta, files: Seq<ShowFile>) -> Seq<RowView> {
    files.map_values(
        |f: ShowFile|
            RowView {
                name: f.file.name,
                length: f.file.length,
                dest: Some(show_dest_of(meta, f)),
            },
    )
}

/// The rows for the files of a movie.
pub open spec fn movie_rows(meta: MovieMeta, files: Seq<TorrentFile>) -> Seq<RowView> {
    files.map_values(
        |f: TorrentFile|
            RowView { name: f.name, length: f.length, dest: Some(movie_dest_of(meta, f)) },
    )
}

/// The rows for files that are linked as they are.
pub open spec fn other_rows(files: Seq<TorrentFile>) -> Seq<RowView> {
    files.map_values(|f: TorrentFile| RowView { name: f.name, length: f.length, dest: None })
}

/// The rows for a torrent.
pub open spec fn rows_for(kind: KindView, all_files: Seq<TorrentFile>) -> Seq<RowView> {
    match kind {
        KindView::Show { show, episodes } => show_rows(show, episodes),
        KindView::Movie { movie, videos } => movie_rows(movie, videos),
        KindView::Other => other_rows(all_files),
    }
}

/// Whether a torrent is shown: always, unless only shows and movies are asked for.
pub open spec fn is_shown(kind: PlanKind, only_matched: bool) -> bool {
    kind == PlanKind::Show || kind == PlanKind::Movie || !only_matched
}

/// The rows for the files of a show.
fn rows_of_show(meta: &ShowMeta, files: &[ShowFile]) -> (r: Vec<SummaryRow>)
    ensures
        rows_of(r@) == show_rows(*meta, files@),
{
    let mut r: Vec<SummaryRow> = Vec::new();
    let mut i: usize = 0;
    while i < files.len()
        invariant
            i <= files.len(),
            rows_of(r@) == show_rows(*meta, files@.take(i as int)),
        decreases files.len() - i,
    {
        let file = &files[i];
        let ghost before = r@;
        r.push(
            SummaryRow {
                name: file.file.name.clone(),
                length: file.file.length,
                dest: Some(show_dest(meta, file)),
            },
        );
        i += 1;
        proof {
            assert(rows_of(r@) == rows_of(before).push(r@[i - 1]@));
            assert(show_rows(*meta, files@.take(i as int)) == show_rows(
                *meta,
                files@.take(i - 1),
            ).push(r@[i - 1]@));
        }
    }
    assert(files@.take(files@.len() as int) == files@);
    r
}

/// The rows for the files of a movie.
fn rows_of_movie(meta: &MovieMeta, files: &[TorrentFile]) -> (r: Vec<SummaryRow>)
    ensures
        rows_of(r@) == movie_rows(*meta, files@),
{
    let mut r: Vec<SummaryRow> = Vec::new();
    let mut i: usize = 0;
    while i < files.len()
        invariant
            i <= files.len(),
            rows_of(r@) == movie_rows(*meta, files@.take(i as int)),
        decreases files.len() - i,
    {
        let file = &files[i];
        let ghost before = r@;
        r.push(
            SummaryRow {
                name: file.name.clone(),
                length: file.length,
                dest: Some(movie_dest(meta, file)),
            },
        );
        i += 1;
        proof {
            assert(rows_of(r@) == rows_of(before).push(r@[i - 1]@));
            assert(movie_rows(*meta, files@.take(i as int)) == movie_rows(
                *meta,
                files@.take(i - 1),
            ).push(r@[i - 1]@));
        }
    }
    assert(files@.take(files@.len() as int) == files@);
    r
}

/// The rows for files that are linked as they are.
fn rows_of_other(files: &[TorrentFile]) -> (r: Vec<SummaryRow>)
    ensures
        rows_of(r@) == other_rows(files@),
{
    let mut r: Vec<SummaryRow> = Vec::new();
    let mut i: usize = 0;
    while i < files.len()
        invariant
            i <= files.len(),
            rows_of(r@) == other_rows(files@.take(i as int)),
        decreases files.len() - i,
    {
        let file = &files[i];
        let ghost before = r@;
        r.push(SummaryRow { name: file.name.clone(), length: file.length, dest: None });
        i += 1;
        proof {
            assert(rows_of(r@) == rows_of(before).push(r@[i - 1]@));
            assert(other_rows(files@.take(i as int)) == other_rows(files@.take(i - 1)).push(
                r@[i - 1]@,
            ));
        }
    }
    assert(files@.take(files@.len() as int) == files@);
    r
}

/// What is shown of a torrent that was classified, or could not be: nothing, if
/// only shows and movies are asked for and it is neither; the files only if
/// details are asked for.
pub fn run(
    classification: Option<&Classification>,
    detailed: bool,
    show_only_matched: bool,
) -> (r: Option<Summary>)
    ensures
        ({
            let kind = plan_kind_of(
                match classification {
                    Some(c) => Some(c.kind@),
                    None => None,
                },
            );
            match r {
                Some(summary) => {
                    &&& is_shown(kind, show_only_matched)
                    &&& summary.kind == kind
                    &&& rows_of(summary.rows@) == match classification {
                        Some(c) if detailed => rows_for(c.kind@, c.all_files@),
                        _ => Seq::<RowView>::empty(),
                    }
                    &&& summary.total == match classification {
                        Some(c) => c.all_files@.len(),
                        None => 0,
                    }
                },
                None => !is_shown(kind, show_only_matched),
            }
        }),
{
    let none: Vec<SummaryRow> = Vec::new();
    assert(rows_of(none@) == Seq::<RowView>::empty());
    let c = match classification {
        Some(c) => c,
        None => return if show_only_matched {
            None
        } else {
            Some(Summary { kind: PlanKind::Failed, rows: none, total: 0 })
        },
    };
    let total: usize = c.all_files.len();
    match &c.kind {
        ClassificationKind::Show(result) => {
            let rows = if detailed {
                rows_of_show(&result.meta, result.video_files.as_slice())
            } else {
                none
            };
            Some(Summary { kind: PlanKind::Show, rows, total })
        },
        ClassificationKind::Movie(result) => {
            let rows = if detailed {
                rows_of_movie(&result.meta, result.video_files.as_slice())
            } else {
                none
            };
            Some(Summary { kind: PlanKind::Movie, rows, total })
        },
        ClassificationKind::Other => {
            if show_only_matched {
                return None;
            }
            let rows = if detailed {
                rows_of_other(c.all_files.as_slice())
            } else {
                none
            };
            Some(Summary { kind: PlanKind::Other, rows, total })
        },
    }
}

// ── laws ─────────────────────────────────────────────────────────────────────

/// There is one row for each file that is linked, in their order, with its name, its size
/// and, for a show or a movie, where it would be linked.
pub proof fn rows_name_every_file(
    show: ShowMeta,
    episodes: Seq<ShowFile>,
    movie: MovieMeta,
    videos: Seq<TorrentFile>,
    files: Seq<TorrentFile>,
    rows: Seq<SummaryRow>,
)
    ensures
        rows_of(rows).len() == rows.len(),
        forall|i: int|
            0 <= i < rows.len() ==> #[trigger] rows_of(rows)[i] == (RowView {
                name: rows[i].name,
                length: rows[i].length,
                dest: view_of(rows[i].dest),
            }),
        ({
            let shown = rows_for(KindView::Show { show, episodes }, files);
            let filmed = rows_for(KindView::Movie { movie, videos }, files);
            let others = rows_for(KindView::Other, files);
            &&& shown.len() == episodes.len()
            &&& forall|i: int|
                0 <= i < episodes.len() ==> #[trigger] shown[i] == (RowView {
                    name: episodes[i].file.name,
                    length: episodes[i].file.length,
                    dest: Some(show_dest_of(show, episodes[i])),
                })
            &&& filmed.len() == videos.len()
            &&& forall|i: int|
                0 <= i < videos.len() ==> #[trigger] filmed[i] == (RowView {
                    name: videos[i].name,
                    length: videos[i].length,
                    dest: Some(movie_dest_of(movie, videos[i])),
                })
            &&& others.len() == files.len()
            &&& forall|i: int|
                0 <= i < files.len() ==> #[trigger] others[i] == (RowView {
                    name: files[i].name,
                    length: files[i].length,
                    dest: None,
                })
        }),
{
}

/// Shows and movies are always shown, and all else unless only these are asked for.
pub proof fn matches_are_always_shown(only_matched: bool)
    ensures
        is_shown(PlanKind::Show, only_matched),
        is_shown(PlanKind::Movie, only_matched),
        is_shown(PlanKind::Other, only_matched) == !only_matched,
        is_shown(PlanKind::Failed, only_matched) == !only_matched,
{
}

} // verus!
