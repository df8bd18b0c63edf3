//! Torrents as the Transmission daemon reports them.

use vstd::prelude::*;

use crate::config::TransmissionConfig;
use crate::text::{signed_decimal, signed_decimal_text};
use crate::types::{TorrentFile, TorrentId, TorrentInfo};

verus! {

/// A file of a torrent, as the daemon reports it.
#[derive(Debug)]
pub struct ReportedFile {
    pub name: String,
    pub length: i64,
    pub bytes_completed: i64,
}

/// A torrent, as the daemon reports it; what was not asked for or is not known is
/// missing.
#[derive(Debug)]
pub struct ReportedTorrent {
    pub id: Option<i64>,
    pub name: Option<String>,
    pub download_dir: Option<String>,
    pub files: Option<Vec<ReportedFile>>,
    /// Whether the torrent has been downloaded to its end.
    pub finished: bool,
}

/// Why a torrent could not be fetched.
#[derive(Debug, Clone, Copy, PartialEq, Eq, Structural)]
pub enum FetchError {
    NotFound,
    MissingName,
    MissingDownloadDir,
}

/// A user's name and password.
#[derive(Debug)]
pub struct BasicAuth {
    pub user: String,
    pub password: String,
}

/// What is known of the daemon: who asks it, and how often.
#[derive(Debug)]
pub struct Client {
    pub auth: Option<BasicAuth>,
    pub retry_attempts: u32,
}

/// What a [`TorrentInfo`] holds.
#[verifier::ext_equal]
pub struct TorrentInfoView {
    pub id: TorrentId,
    pub name: String,
    pub download_dir: String,
    pub files: Seq<TorrentFile>,
}

impl View for TorrentInfo {
    type V = TorrentInfoView;

    open spec fn view(&self) -> TorrentInfoView {
        TorrentInfoView {
            id: self.id,
            name: self.name,
            download_dir: self.download_dir,
            files: self.files@,
        }
    }
}

/// What a sequence of torrents holds.
pub open spec fn infos_of(torrents: Seq<TorrentInfo>) -> Seq<TorrentInfoView> {
    torrents.map_values(|t: TorrentInfo| t@)
}

/// Whether a file is not empty and has been downloaded completely.
pub open spec fn is_complete(file: ReportedFile) -> bool {
    file.length > 0 && file.bytes_completed >= file.length
}

/// A file that has been downloaded completely.
pub open spec fn file_of(file: ReportedFile) -> TorrentFile {
    TorrentFile { name: file.name, length: file.length as u64 }
}

/// The files that have been downloaded completely, in their order.
pub open spec fn files_of(files: Seq<ReportedFile>) -> Seq<TorrentFile> {
    files.filter(|f: ReportedFile| is_complete(f)).map_values(|f: ReportedFile| file_of(f))
}

/// The files that have been downloaded completely; none, if none are reported.
pub open spec fn reported_files_of(files: Option<Vec<ReportedFile>>) -> Seq<TorrentFile> {
    match files {
        Some(files) => files_of(files@),
        None => Seq::<TorrentFile>::empty(),
    }
}

/// Whether a torrent has been downloaded, and all that has to be known of it is.
pub open spec fn is_usable(torrent: ReportedTorrent) -> bool {
    torrent.finished && torrent.id is Some && torrent.name is Some && torrent.download_dir is Some
}

/// A torrent of which all is known.
pub open spec fn info_of(torrent: ReportedTorrent) -> TorrentInfoView {
    TorrentInfoView {
        id: TorrentId(torrent.id->0),
        name: torrent.name->0,
        download_dir: torrent.download_dir->0,
        files: reported_files_of(torrent.files),
    }
}

/// The torrents that have been downloaded, in their order.
pub open spec fn completed_of(torrents: Seq<ReportedTorrent>) -> Seq<TorrentInfoView> {
    torrents.filter(|t: ReportedTorrent| is_usable(t)).map_values(
        |t: ReportedTorrent| info_of(t),
    )
}

/// The torrent that is taken from the reply to a request for one: the last one.
pub open spec fn fetched(id: TorrentId, torrents: Seq<ReportedTorrent>) -> Result<
    TorrentInfoView,
    FetchError,
> {
    if torrents.len() == 0 {
        Err(FetchError::NotFound)
    } else if torrents.last().name is None {
        Err(FetchError::MissingName)
    } else if torrents.last().download_dir is None {
        Err(FetchError::MissingDownloadDir)
    } else {
        Ok(
            TorrentInfoView {
                id,
                name: torrents.last().name->0,
                download_dir: torrents.last().download_dir->0,
                files: reported_files_of(torrents.last().files),
            },
        )
    }
}

/// What an error says, in front of which the torrent is named.
pub open spec fn complaint_of(error: FetchError) -> Seq<char> {
    match error {
        FetchError::NotFound => " not found"@,
        FetchError::MissingName => " missing name"@,
        FetchError::MissingDownloadDir => " missing download_dir"@,
    }
}

impl FetchError {
    /// The message for a torrent that could not be fetched.
    pub fn message(self, id: TorrentId) -> (r: String)
        ensures
            r@ == "torrent "@ + signed_decimal(id.0 as int) + complaint_of(self),
    {
        let mut message = "torrent ".to_owned();
        message.append(signed_decimal_text(id.0).as_str());
        message.append(
            match self {
                FetchError::NotFound => " not found",
                FetchError::MissingName => " missing name",
                FetchError::MissingDownloadDir => " missing download_dir",
            },
        );
        message
    }
}

/// The files that have been downloaded completely.
pub fn completed_files(files: &Option<Vec<ReportedFile>>) -> (r: Vec<TorrentFile>)
    ensures
        r@ == reported_files_of(*files),
{
    let mut r: Vec<TorrentFile> = Vec::new();
    let files = match files {
        Some(files) => files,
        None => return r,
    };
    let ghost complete = |f: ReportedFile| is_complete(f);
    let ghost convert = |f: ReportedFile| file_of(f);
    let mut i: usize = 0;
    proof {
        reveal(Seq::filter);
        assert(files@.take(0) == Seq::<ReportedFile>::empty());
        assert(r@ == files@.take(0).filter(complete).map_values(convert));
    }
    while i < files.len()
        invariant
            i <= files.len(),
            complete == (|f: ReportedFile| is_complete(f)),
            convert == (|f: ReportedFile| file_of(f)),
            r@ == files@.take(i as int).filter(complete).map_values(convert),
        decreases files.len() - i,
    {
        proof {
            reveal(Seq::filter);
            assert(files@.take(i + 1).drop_last() == files@.take(i as int));
        }
        let file = &files[i];
        if file.length > 0 && file.bytes_completed >= file.length {
            r.push(TorrentFile { name: file.name.clone(), length: file.length as u64 });
        }
        i += 1;
        assert(r@ == files@.take(i as int).filter(complete).map_values(convert));
    }
    assert(files@.take(files@.len() as int) == files@);
    r
}

/// The user's name and password, if both are given.
pub open spec fn auth_of(config: TransmissionConfig) -> Option<BasicAuth> {
    match (config.username, config.password) {
        (Some(user), Some(password)) => Some(BasicAuth { user, password }),
        _ => None,
    }
}

impl Client {
    /// Whether the client is in order: each request is tried at least once.
    pub open spec fn well_formed(&self) -> bool {
        self.retry_attempts >= 1
    }

    /// A client that asks under the user's name, if name and password are given.
    pub fn new(config: &TransmissionConfig) -> (r: Self)
        ensures
            r.well_formed(),
            r.auth == auth_of(*config),
            r.retry_attempts == (if config.transmission_retry_attempts == 0 {
                1
            } else {
                config.transmission_retry_attempts
            }),
    {
        Client {
            auth: match (&config.username, &config.password) {
                (Some(user), Some(password)) => Some(
                    BasicAuth { user: user.clone(), password: password.clone() },
                ),
                _ => None,
            },
            retry_attempts: if config.transmission_retry_attempts == 0 {
                1
            } else {
                config.transmission_retry_attempts
            },
        }
    }

    /// The torrents that have been downloaded. A torrent without an ID, a name or a
    /// directory is left out.
    pub fn fetch_all_completed(&self, torrents: &Vec<ReportedTorrent>) -> (r: Vec<TorrentInfo>)
        ensures
            infos_of(r@) == completed_of(torrents@),
    {
        let ghost usable = |t: ReportedTorrent| is_usable(t);
        let ghost convert = |t: ReportedTorrent| info_of(t);
        let mut r: Vec<TorrentInfo> = Vec::new();
        let mut i: usize = 0;
        proof {
            reveal(Seq::filter);
            assert(torrents@.take(0) == Seq::<ReportedTorrent>::empty());
            assert(infos_of(r@) == torrents@.take(0).filter(usable).map_values(convert));
        }
        while i < torrents.len()
            invariant
                i <= torrents.len(),
                usable == (|t: ReportedTorrent| is_usable(t)),
                convert == (|t: ReportedTorrent| info_of(t)),
                infos_of(r@) == torrents@.take(i as int).filter(usable).map_values(convert),
            decreases torrents.len() - i,
        {
            proof {
                reveal(Seq::filter);
                assert(torrents@.take(i + 1).drop_last() == torrents@.take(i as int));
            }
            let torrent = &torrents[i];
            let ghost before = r@;
            if torrent.finished {
                if let (Some(id), Some(name), Some(download_dir)) = (
                    torrent.id,
                    &torrent.name,
                    &torrent.download_dir,
                ) {
                    let info = TorrentInfo {
                        id: TorrentId(id),
                        name: name.clone(),
                        download_dir: download_dir.clone(),
                        files: completed_files(&torrent.files),
                    };
                    assert(info@ == info_of(*torrent));
                    r.push(info);
                    assert(infos_of(r@) == infos_of(before).push(info_of(*torrent)));
                }
            }
            i += 1;
            assert(infos_of(r@) == torrents@.take(i as int).filter(usable).map_values(convert));
        }
        assert(torrents@.take(torrents@.len() as int) == torrents@);
        r
    }

    /// The torrent in the reply to a request for one.
    pub fn fetch(&self, id: TorrentId, torrents: &Vec<ReportedTorrent>) -> (r: Result<
        TorrentInfo,
        FetchError,
    >)
        ensures
            match r {
                Ok(info) => fetched(id, torrents@) == Ok::<_, FetchError>(info@),
                Err(e) => fetched(id, torrents@) == Err::<TorrentInfoView, _>(e),
            },
    {
        if torrents.len() == 0 {
            return Err(FetchError::NotFound);
        }
        let torrent = &torrents[torrents.len() - 1];
        let name = match &torrent.name {
            Some(name) => name.clone(),
            None => return Err(FetchError::MissingName),
        };
        let download_dir = match &torrent.download_dir {
            Some(dir) => dir.clone(),
            None => return Err(FetchError::MissingDownloadDir),
        };
        Ok(TorrentInfo { id, name, download_dir, files: completed_files(&torrent.files) })
    }
}

/// Every file of a torrent that is worked on is one that the daemon reports as
/// downloaded, with the size that it reports.
pub proof fn files_are_complete(files: Seq<ReportedFile>, at: int)
    requires
        0 <= at < files_of(files).len(),
    ensures
        exists|i: int|
            0 <= i < files.len() && is_complete(#[trigger] files[i]) && files_of(files)[at]
                == file_of(files[i]) && files_of(files)[at].length == files[i].length,
{
    let complete = |f: ReportedFile| is_complete(f);
    let kept = files.filter(complete);
    files.lemma_filter_pred(complete, at);
    files.lemma_filter_contains_rev(complete, kept[at]);
    let i = choose|i: int| 0 <= i < files.len() && files[i] == kept[at];
    assert(is_complete(files[i]));
}

/// What stands for torrents leaves nothing out.
pub proof fn torrents_show_everything(torrents: Seq<TorrentInfo>)
    ensures
        infos_of(torrents).len() == torrents.len(),
        forall|i: int|
            0 <= i < torrents.len() ==> #[trigger] infos_of(torrents)[i] == (TorrentInfoView {
                id: torrents[i].id,
                name: torrents[i].name,
                download_dir: torrents[i].download_dir,
                files: torrents[i].files@,
            }),
{
}

/// Every file that is not empty and has been downloaded completely is taken, in their
/// order, with its name and size; no other is.
pub proof fn complete_files_are_taken(files: Seq<ReportedFile>, file: ReportedFile)
    ensures
        files_of(Seq::empty()).len() == 0,
        file.length > 0 && file.bytes_completed >= file.length ==> files_of(files.push(file)).len()
            == files_of(files).len() + 1 && files_of(files.push(file)).drop_last() == files_of(
            files,
        ) && files_of(files.push(file)).last().name == file.name && files_of(
            files.push(file),
        ).last().length as int == file.length as int,
        file.length <= 0 || file.bytes_completed < file.length ==> files_of(files.push(file))
            == files_of(files),
        reported_files_of(None).len() == 0,
{
    reveal(Seq::filter);
    let complete = |f: ReportedFile| is_complete(f);
    let convert = |f: ReportedFile| file_of(f);
    assert(files.push(file).drop_last() =~= files);
    if is_complete(file) {
        assert(files.filter(complete).push(file).map_values(convert) =~= files.filter(
            complete,
        ).map_values(convert).push(file_of(file)));
        assert(files_of(files.push(file)).drop_last() =~= files_of(files));
    }
}

/// Every torrent that has been downloaded, and of which the ID, the name and the directory
/// are known, is taken, in their order, with its complete files; no other is.
pub proof fn finished_torrents_are_taken(torrents: Seq<ReportedTorrent>, torrent: ReportedTorrent)
    ensures
        completed_of(Seq::empty()).len() == 0,
        completed_of(torrents.push(torrent)) == (match (
            torrent.id,
            torrent.name,
            torrent.download_dir,
        ) {
            (Some(id), Some(name), Some(download_dir)) if torrent.finished => completed_of(
                torrents,
            ).push(
                TorrentInfoView {
                    id: TorrentId(id),
                    name,
                    download_dir,
                    files: match torrent.files {
                        Some(files) => files_of(files@),
                        None => Seq::empty(),
                    },
                },
            ),
            _ => completed_of(torrents),
        }),
{
    reveal(Seq::filter);
    let usable = |t: ReportedTorrent| is_usable(t);
    let convert = |t: ReportedTorrent| info_of(t);
    assert(torrents.push(torrent).drop_last() =~= torrents);
    if is_usable(torrent) {
        assert(torrents.filter(usable).push(torrent).map_values(convert) =~= torrents.filter(
            usable,
        ).map_values(convert).push(info_of(torrent)));
    }
}

/// A torrent that is asked for is the last one of the reply, under the ID that was asked
/// for, with its name, its directory and its complete files. It is not found exactly if the
/// reply is empty; otherwise a missing name is told before a missing directory.
pub proof fn torrent_asked_for_is_fetched(id: TorrentId, torrents: Seq<ReportedTorrent>)
    ensures
        torrents.len() == 0 ==> fetched(id, torrents) == Err::<TorrentInfoView, _>(
            FetchError::NotFound,
        ),
        torrents.len() > 0 ==> ({
            let torrent = torrents[torrents.len() - 1];
            fetched(id, torrents) == (match (torrent.name, torrent.download_dir) {
                (None, _) => Err(FetchError::MissingName),
                (Some(_), None) => Err(FetchError::MissingDownloadDir),
                (Some(name), Some(download_dir)) => Ok(
                    TorrentInfoView {
                        id,
                        name,
                        download_dir,
                        files: match torrent.files {
                            Some(files) => files_of(files@),
                            None => Seq::empty(),
                        },
                    },
                ),
            })
        }),
{
}

/// The daemon is asked under a name exactly if name and password are given, and then
/// under these.
pub proof fn name_and_password_go_together(config: TransmissionConfig)
    ensures
        auth_of(config) is Some <==> config.username is Some && config.password is Some,
        auth_of(config) matches Some(auth) ==> config.username == Some(auth.user)
            && config.password == Some(auth.password),
{
}

} // verus!
