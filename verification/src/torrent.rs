//! What travels between the store and the torrent engine, and how the
//! torrent worker names its directories.

use vstd::prelude::*;
use crate::bencode::{framed, is_framed};
use crate::error::{MagError, MagErrorView};
use crate::store::{join_path, join_spec, seed_lock_path};
use crate::digest::{hex_encode, hex_spec};
use crate::text::{concat2, concat3, decimal, decimal_spec, hex16, hex_padded_spec};
use vstd::utf8::{decode_utf8, valid_utf8};

verus! {

/// The part of a work directory's name that follows the digest.
pub open spec fn work_marker() -> Seq<char> {
    ".torrent-work-"@
}

/// The beginning of a session directory's name.
pub open spec fn session_prefix() -> Seq<char> {
    ".torrent-session-"@
}

/// The name of the lock file inside a session directory.
pub open spec fn fetcher_lock_name() -> Seq<char> {
    ".torrent-fetcher.lock"@
}

/// A request to the torrent worker: fetch `url` and put the payload at `dest`.
#[derive(Debug)]
pub struct TorrentDownloadRequest {
    pub url: String,
    pub sha256: String,
    pub filename: String,
    pub dest: String,
}

/// The worker's answer to a request that was served.
#[derive(Debug)]
pub struct TorrentDownload {
    /// The payload's path inside the torrent.
    pub relative_path: String,
    /// The torrent's info hash, in hexadecimal.
    pub info_hash: String,
    /// The torrent's metadata, bencoded.
    pub torrent_bytes: Vec<u8>,
}

/// What the mirror keeps of a torrent that it seeds.
#[derive(Debug)]
pub struct TorrentSeedInfo {
    pub info_hash: String,
    pub relative_path: String,
    pub bytes: Vec<u8>,
}

/// The seeder: the directory it watches and the lock it holds while it runs.
#[derive(Debug)]
pub struct TorrentSeeder {
    pub torrent_root: String,
    pub lock_path: String,
}

impl TorrentSeeder {
    /// The seeder that watches `watch_dir` and locks the seeder lock below
    /// `seed_root`. It needs a directory to watch.
    pub fn new(watch_dir: String, seed_root: &str) -> (r: Result<TorrentSeeder, MagError>)
        ensures
            match r {
                Ok(s) => watch_dir@.len() > 0 && s.torrent_root@ == watch_dir@ && s.lock_path@
                    == join_spec(seed_root@, "seeder.lock"@),
                Err(e) => watch_dir@.len() == 0 && e@ == MagErrorView::Generic(
                    "torrent seeder requires a directory to watch"@,
                ),
            },
    {
        if watch_dir.as_str().is_empty() {
            return Err(
                MagError::Generic(String::from_str("torrent seeder requires a directory to watch")),
            );
        }
        let lock_path = seed_lock_path(seed_root);
        Ok(TorrentSeeder { torrent_root: watch_dir, lock_path })
    }
}

/// The range of ports on which the seeder listens for `listen_port`.
pub open spec fn listen_range_spec(listen_port: Option<u16>) -> Result<
    Option<(u16, u16)>,
    MagErrorView,
> {
    match listen_port {
        None => Ok(None),
        Some(port) => if port == u16::MAX {
            Err(MagErrorView::Generic("listen port must be lower than 65535"@))
        } else {
            Ok(Some((port, (port + 1) as u16)))
        },
    }
}

/// The half-open range of ports on which the seeder listens: the one port
/// asked for, or none. The highest port cannot be asked for.
pub fn listen_range(listen_port: Option<u16>) -> (r: Result<Option<(u16, u16)>, MagError>)
    ensures
        match r {
            Ok(range) => listen_range_spec(listen_port) == Ok::<_, MagErrorView>(range),
            Err(e) => listen_range_spec(listen_port) == Err::<Option<(u16, u16)>, _>(e@),
        },
{
    match listen_port {
        None => Ok(None),
        Some(port) => {
            if port == u16::MAX {
                Err(MagError::Generic(String::from_str("listen port must be lower than 65535")))
            } else {
                Ok(Some((port, port + 1)))
            }
        },
    }
}

/// The directory in which the worker downloads for request number
/// `counter`: `<downloads>/<sha256>.torrent-work-<counter>`, the counter in
/// sixteen hexadecimal digits.
pub fn allocate_download_dir(downloads_root: &str, sha256: &str, counter: u64) -> (out: String)
    ensures
        out@ == join_spec(
            downloads_root@,
            sha256@ + work_marker() + hex_padded_spec(counter as nat, 16),
        ),
{
    let digits = hex16(counter);
    let name = concat3(sha256, ".torrent-work-", digits.as_str());
    join_path(downloads_root, name.as_str())
}

/// The session directory with the token `token`:
/// `<work_root>/.torrent-session-<token>`, the token in sixteen hexadecimal digits.
pub fn session_dir(work_root: &str, token: u64) -> (out: String)
    ensures
        out@ == join_spec(work_root@, session_prefix() + hex_padded_spec(token as nat, 16)),
{
    let digits = hex16(token);
    let name = concat2(".torrent-session-", digits.as_str());
    join_path(work_root, name.as_str())
}

/// The torrent worker answers with exactly one file, or not at all.
pub open spec fn single_file_spec(filename: Seq<char>, files: Seq<Seq<char>>) -> Result<
    Seq<char>,
    MagErrorView,
> {
    if files.len() == 1 {
        Ok(files[0])
    } else {
        Err(
            MagErrorView::Generic(
                "torrent for "@ + filename + " contained "@ + crate::text::decimal_spec(
                    files.len(),
                ) + " files (expected 1)"@,
            ),
        )
    }
}

/// The one file that a finished torrent download describes; a torrent with
/// no file or several is refused.
pub fn single_file(filename: &str, files: &Vec<String>) -> (r: Result<String, MagError>)
    ensures
        match r {
            Ok(path) => single_file_spec(filename@, crate::package::strings_view(files@))
                == Ok::<_, MagErrorView>(path@),
            Err(e) => single_file_spec(filename@, crate::package::strings_view(files@)) == Err::<
                Seq<char>,
                _,
            >(e@),
        },
{
    if files.len() == 1 {
        Ok(files[0].clone())
    } else {
        let count = crate::text::decimal(files.len() as u64);
        let mut text = concat3("torrent for ", filename, " contained ");
        text.append(count.as_str());
        text.append(" files (expected 1)");
        Err(MagError::Generic(text))
    }
}

/// What a torrent file holds, as far as the mirror reads it.
#[derive(Debug)]
pub struct RawTorrent {
    /// The info hash: 20 bytes.
    pub info_hash: Vec<u8>,
    /// The name of the torrent, where it has one.
    pub name: Option<Vec<u8>>,
    /// For a torrent with a file list, the path of each file as its components.
    pub files: Option<Vec<Vec<Vec<u8>>>>,
}

/// The value of a path given as components.
pub open spec fn components_view(path: Seq<Vec<u8>>) -> Seq<Seq<u8>> {
    Seq::new(path.len(), |i: int| path[i]@)
}

/// The value of a file list.
pub open spec fn files_view(files: Seq<Vec<Vec<u8>>>) -> Seq<Seq<Seq<u8>>> {
    Seq::new(files.len(), |i: int| components_view(files[i]@))
}

/// The mathematical value of a [`RawTorrent`]: info hash, name and file list.
pub type RawTorrentView = (Seq<u8>, Option<Seq<u8>>, Option<Seq<Seq<Seq<u8>>>>);

impl View for RawTorrent {
    type V = RawTorrentView;

    open spec fn view(&self) -> RawTorrentView {
        (
            self.info_hash@,
            match self.name {
                Some(n) => Some(n@),
                None => None,
            },
            match self.files {
                Some(f) => Some(files_view(f@)),
                None => None,
            },
        )
    }
}

/// The value of what the torrent parser gives.
pub open spec fn raw_view(r: Result<RawTorrent, String>) -> Result<RawTorrentView, Seq<char>> {
    match r {
        Ok(t) => Ok(t@),
        Err(text) => Err(text@),
    }
}

/// What the torrent parser makes of the bytes of a torrent file: what the
/// file holds, or the parser's complaint.
pub uninterp spec fn torrent_meta(bytes: Seq<u8>) -> Result<RawTorrentView, Seq<char>>;

/// Parses the bytes of a torrent file.
///
/// Trusted: `librqbit::torrent_from_bytes_ext`, of whose result the info
/// hash, the name and the paths of the file list are copied; a failure is
/// given in the words of its error. The contract names the result; it
/// claims nothing of what it is. The parser reads past the end of data
/// that breaks off, adds up lengths that the data claims, and descends as
/// deep as the data nests; so it is called only on data that begins with
/// one complete value of bounded nesting, on which it does none of these.
#[verifier::external_body]
fn parse_torrent_raw(bytes: &[u8]) -> (r: Result<RawTorrent, String>)
    requires
        framed(bytes@),
    ensures
        raw_view(r) == torrent_meta(bytes@),
{
    match librqbit::torrent_from_bytes_ext::<librqbit::ByteBufOwned>(bytes) {
        Ok(t) => Ok(
            RawTorrent {
                info_hash: t.meta.info_hash.0.to_vec(),
                name: t.meta.info.name.map(|n| n.0.to_vec()),
                files: t.meta.info.files.map(
                    |fs| fs.iter().map(|f| f.path.iter().map(|p| p.0.to_vec()).collect()).collect(),
                ),
            },
        ),
        Err(e) => Err(format!("{e:#}")),
    }
}

/// The complaint about data that does not begin with one complete
/// bencoded value of bounded nesting.
pub open spec fn unframed_complaint() -> Seq<char> {
    "the data is not one complete bencoded value"@
}

/// What is made of the bytes of a torrent file: data that is not framed
/// is refused; framed data is what the torrent parser makes of it.
pub open spec fn torrent_read(bytes: Seq<u8>) -> Result<RawTorrentView, Seq<char>> {
    if framed(bytes) {
        torrent_meta(bytes)
    } else {
        Err(unframed_complaint())
    }
}

/// Parses the bytes of a torrent file: what it holds, or a complaint. Data
/// that does not begin with one complete bencoded value of bounded nesting
/// is refused before the parser sees it.
pub fn parse_torrent(bytes: &[u8]) -> (r: Result<RawTorrent, String>)
    ensures
        raw_view(r) == torrent_read(bytes@),
{
    if !is_framed(bytes) {
        return Err(String::from_str("the data is not one complete bencoded value"));
    }
    parse_torrent_raw(bytes)
}

/// The words in which the standard library refuses bytes that are no UTF-8.
pub uninterp spec fn utf8_complaint(bytes: Seq<u8>) -> Seq<char>;

/// The text that bytes encode, or the complaint about them.
pub open spec fn decode_text(bytes: Seq<u8>) -> Result<Seq<char>, Seq<char>> {
    if valid_utf8(bytes) {
        Ok(decode_utf8(bytes))
    } else {
        Err(utf8_complaint(bytes))
    }
}

/// Decodes UTF-8.
///
/// Trusted: `std::str::from_utf8`, which gives the text that the bytes
/// encode, and refuses what is no UTF-8; the refusal is given in the words
/// of its error, which the contract names.
#[verifier::external_body]
fn utf8_text(bytes: &[u8]) -> (r: Result<String, String>)
    ensures
        match r {
            Ok(s) => valid_utf8(bytes@) && s@ == decode_utf8(bytes@),
            Err(text) => !valid_utf8(bytes@) && text@ == utf8_complaint(bytes@),
        },
{
    match std::str::from_utf8(bytes) {
        Ok(s) => Ok(s.to_string()),
        Err(e) => Err(e.to_string()),
    }
}

/// The path made of the first `n` components: each joined below those
/// before it; the first component that is no UTF-8 decides.
pub open spec fn joined_path(components: Seq<Seq<u8>>, n: int) -> Result<Seq<char>, Seq<char>>
    decreases n,
{
    if n <= 0 {
        Ok(Seq::empty())
    } else {
        match joined_path(components, n - 1) {
            Err(text) => Err(text),
            Ok(parent) => match decode_text(components[n - 1]) {
                Err(text) => Err(text),
                Ok(part) => Ok(join_spec(parent, part)),
            },
        }
    }
}

/// A path that failed at a component fails as a whole, for the same reason.
pub proof fn lemma_joined_path_err_stays(components: Seq<Seq<u8>>, n: int, total: int)
    requires
        0 <= n <= total,
        joined_path(components, n) is Err,
    ensures
        joined_path(components, total) == joined_path(components, n),
    decreases total - n,
{
    if n < total {
        lemma_joined_path_err_stays(components, n, total - 1);
    }
}

/// The payload path of a torrent that describes one file: the path of the
/// one entry of its file list, or else its name.
pub open spec fn payload_path_spec(label: Seq<char>, t: RawTorrentView) -> Result<
    Seq<char>,
    MagErrorView,
> {
    let path = match t.2 {
        Some(files) => if files.len() != 1 {
            Err(
                MagErrorView::Generic(
                    "torrent "@ + label + " referenced "@ + decimal_spec(files.len())
                        + " files (expected 1)"@,
                ),
            )
        } else {
            match joined_path(files[0], files[0].len() as int) {
                Ok(p) => Ok(p),
                Err(text) => Err(
                    MagErrorView::Generic(
                        "invalid torrent file path in "@ + label + ": "@ + text,
                    ),
                ),
            }
        },
        None => match t.1 {
            Some(name) => match decode_text(name) {
                Ok(p) => Ok(p),
                Err(text) => Err(
                    MagErrorView::Generic("invalid torrent name in "@ + label + ": "@ + text),
                ),
            },
            None => Err(
                MagErrorView::Generic("torrent "@ + label + " missing file name metadata"@),
            ),
        },
    };
    match path {
        Err(e) => Err(e),
        Ok(p) => if p.len() == 0 {
            Err(MagErrorView::Generic("torrent "@ + label + " does not contain a valid path"@))
        } else {
            Ok(p)
        },
    }
}

/// What the mirror keeps of the torrent file `label`, which the parser
/// read as `parsed`: the info hash in hexadecimal and the payload path.
pub open spec fn seed_info_spec(label: Seq<char>, parsed: Result<RawTorrentView, Seq<char>>) -> Result<
    (Seq<char>, Seq<char>),
    MagErrorView,
> {
    match parsed {
        Err(text) => Err(
            MagErrorView::Generic(
                "failed to parse torrent metadata from "@ + label + ": "@ + text,
            ),
        ),
        Ok(t) => match payload_path_spec(label, t) {
            Err(e) => Err(e),
            Ok(path) => Ok((hex_spec(t.0), path)),
        },
    }
}

fn labelled(lead: &str, label: &str, tail: &str) -> (e: MagError)
    ensures
        e@ == MagErrorView::Generic(lead@ + label@ + tail@),
{
    MagError::Generic(concat3(lead, label, tail))
}

fn labelled_with(lead: &str, label: &str, text: &str) -> (e: MagError)
    ensures
        e@ == MagErrorView::Generic(lead@ + label@ + ": "@ + text@),
{
    let mut message = concat3(lead, label, ": ");
    message.append(text);
    MagError::Generic(message)
}

/// The payload path of the torrent `torrent`, which must describe one file.
pub fn payload_path(label: &str, torrent: &RawTorrent) -> (r: Result<String, MagError>)
    ensures
        match r {
            Ok(p) => payload_path_spec(label@, torrent@) == Ok::<_, MagErrorView>(p@),
            Err(e) => payload_path_spec(label@, torrent@) == Err::<Seq<char>, _>(e@),
        },
{
    let path = match &torrent.files {
        Some(files) => {
            if files.len() != 1 {
                let count = decimal(files.len() as u64);
                let mut message = concat3("torrent ", label, " referenced ");
                message.append(count.as_str());
                message.append(" files (expected 1)");
                return Err(MagError::Generic(message));
            }
            let components = &files[0];
            let ghost parts = components_view(components@);
            assert(files_view(files@)[0] == parts);
            let mut path = String::new();
            let mut i: usize = 0;
            while i < components.len()
                invariant
                    i <= components@.len(),
                    parts == components_view(components@),
                    files_view(files@)[0] == parts,
                    files@.len() == 1,
                    torrent.files == Some(*files),
                    joined_path(parts, i as int) == Ok::<_, Seq<char>>(path@),
                decreases components@.len() - i,
            {
                assert(parts[i as int] == components@[i as int]@);
                match utf8_text(components[i].as_slice()) {
                    Err(text) => {
                        proof {
                            lemma_joined_path_err_stays(parts, i + 1, parts.len() as int);
                        }
                        return Err(
                            labelled_with("invalid torrent file path in ", label, text.as_str()),
                        );
                    },
                    Ok(part) => {
                        path = join_path(path.as_str(), part.as_str());
                    },
                }
                i = i + 1;
            }
            path
        },
        None => match &torrent.name {
            Some(name) => match utf8_text(name.as_slice()) {
                Err(text) => {
                    return Err(labelled_with("invalid torrent name in ", label, text.as_str()));
                },
                Ok(p) => p,
            },
            None => {
                return Err(labelled("torrent ", label, " missing file name metadata"));
            },
        },
    };
    if path.as_str().is_empty() {
        Err(labelled("torrent ", label, " does not contain a valid path"))
    } else {
        Ok(path)
    }
}

/// What the mirror keeps of the torrent file `label` with the contents
/// `bytes`, which the parser read as `parsed`.
pub fn seed_info_from_parsed(label: &str, bytes: Vec<u8>, parsed: Result<RawTorrent, String>) -> (r:
    Result<TorrentSeedInfo, MagError>)
    ensures
        match r {
            Ok(info) => seed_info_spec(label@, raw_view(parsed)) == Ok::<_, MagErrorView>(
                (info.info_hash@, info.relative_path@),
            ) && info.bytes@ == bytes@,
            Err(e) => seed_info_spec(label@, raw_view(parsed)) == Err::<
                (Seq<char>, Seq<char>),
                _,
            >(e@),
        },
{
    match parsed {
        Err(text) => Err(
            labelled_with("failed to parse torrent metadata from ", label, text.as_str()),
        ),
        Ok(torrent) => match payload_path(label, &torrent) {
            Err(e) => Err(e),
            Ok(relative_path) => Ok(
                TorrentSeedInfo {
                    info_hash: hex_encode(torrent.info_hash.as_slice()),
                    relative_path,
                    bytes,
                },
            ),
        },
    }
}

/// Reads what the mirror keeps of a torrent out of the contents `bytes`
/// of the torrent file `label`: the info hash and the path of the one file
/// that the torrent describes.
pub fn load_torrent_seed_info(label: &str, bytes: Vec<u8>) -> (r: Result<
    TorrentSeedInfo,
    MagError,
>)
    ensures
        match r {
            Ok(info) => seed_info_spec(label@, torrent_read(bytes@)) == Ok::<_, MagErrorView>(
                (info.info_hash@, info.relative_path@),
            ) && info.bytes@ == bytes@,
            Err(e) => seed_info_spec(label@, torrent_read(bytes@)) == Err::<
                (Seq<char>, Seq<char>),
                _,
            >(e@),
        },
{
    let parsed = parse_torrent(bytes.as_slice());
    seed_info_from_parsed(label, bytes, parsed)
}

/// How a torrent is added to the worker's session.
#[derive(Debug)]
pub struct TorrentOptions {
    /// The directory into which the torrent is downloaded.
    pub output_folder: String,
    /// Whether files that are there already are written over.
    pub overwrite: bool,
}

/// What is sent to the torrent worker.
#[derive(Debug)]
pub enum WorkerCommand {
    /// Serve the request.
    Download { request: TorrentDownloadRequest },
    /// End the session and the worker.
    Shutdown,
}

/// What the torrent worker does for a command.
#[derive(Debug)]
pub enum WorkerAction {
    /// Download the torrent of `request` into the fresh directory
    /// `work_dir`, copy its one file to the request's destination, and
    /// remove the directory again, whether the download succeeds or fails.
    Start { request: TorrentDownloadRequest, work_dir: String, options: TorrentOptions },
    /// Stop the session and end.
    Stop,
}

/// The torrent worker between two commands.
#[derive(Debug)]
pub struct TorrentWorker {
    /// The directory below which the worker downloads.
    pub downloads_root: String,
    /// The number of requests served so far.
    pub counter: u64,
}

/// The number of the request after `counter`; after the highest number the count begins anew.
pub open spec fn next_counter(counter: u64) -> u64 {
    if counter == u64::MAX {
        0
    } else {
        (counter + 1) as u64
    }
}

impl TorrentWorker {
    /// The worker of the session at `session_root`, before its first request.
    pub fn new(session_root: &str) -> (w: TorrentWorker)
        ensures
            w.downloads_root@ == join_spec(session_root@, "downloads"@),
            w.counter == 0,
    {
        TorrentWorker { downloads_root: join_path(session_root, "downloads"), counter: 0 }
    }

    /// Takes a command. Each request gets a work directory of its own,
    /// named by the digest asked for and the request's number, and is
    /// downloaded there with overwriting allowed.
    pub fn handle(&mut self, command: WorkerCommand) -> (action: WorkerAction)
        ensures
            final(self).downloads_root@ == old(self).downloads_root@,
            match command {
                WorkerCommand::Shutdown => action is Stop && final(self).counter
                    == old(self).counter,
                WorkerCommand::Download { request } => {
                    &&& final(self).counter == next_counter(old(self).counter)
                    &&& action matches WorkerAction::Start { request: served, work_dir, options }
                    &&& served == request
                    &&& work_dir@ == join_spec(
                        old(self).downloads_root@,
                        request.sha256@ + work_marker() + hex_padded_spec(
                            next_counter(old(self).counter) as nat,
                            16,
                        ),
                    )
                    &&& options.output_folder@ == work_dir@
                    &&& options.overwrite
                },
            },
    {
        match command {
            WorkerCommand::Shutdown => WorkerAction::Stop,
            WorkerCommand::Download { request } => {
                self.counter = if self.counter == u64::MAX {
                    0
                } else {
                    self.counter + 1
                };
                let work_dir = allocate_download_dir(
                    self.downloads_root.as_str(),
                    request.sha256.as_str(),
                    self.counter,
                );
                let options = TorrentOptions { output_folder: work_dir.clone(), overwrite: true };
                WorkerAction::Start { request, work_dir, options }
            },
        }
    }
}

} // verus!
