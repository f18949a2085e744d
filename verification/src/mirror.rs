//! The torrent mirror: for every cached fetch file a directory
//! `<store>/torrent/<info_hash>/` with the torrent's metadata in
//! `resource.torrent` and a copy of the payload, so that the file can be
//! seeded.

use vstd::prelude::*;
use crate::error::{MagError, MagErrorView};
use crate::package::strings_view;
use crate::store::{extension_spec, find_after_last, join_path, join_spec, PackageStore};
use crate::text::{chars_of, concat2, string_of_range, trim_spec};
use crate::transport::{info_hash_from_url, info_hash_spec, magnet_read, url_parts};

verus! {

/// The piece length of the torrents that the store creates: 4 MiB.
pub const MIRROR_PIECE_LENGTH: u32 = 4194304;

/// The name of the metadata file of a mirror entry.
pub open spec fn torrent_file_name() -> Seq<char> {
    "resource.torrent"@
}

/// `path` with the extension of its last component replaced by `tmp`, or
/// with `.tmp` appended where the component has no extension.
pub open spec fn temp_sibling_spec(path: Seq<char>) -> Seq<char> {
    match extension_spec(path) {
        Some(ext) => path.subrange(0, path.len() - ext.len()) + "tmp"@,
        None => path + ".tmp"@,
    }
}

/// The file next to `path` into which `path` is written before it is moved into place.
pub fn temp_sibling(path: &str) -> (out: String)
    ensures
        out@ == temp_sibling_spec(path@),
{
    let v = chars_of(path);
    proof {
        assert(v@.subrange(0, v@.len() as int) =~= v@);
    }
    let start = find_after_last(&v, 0, '/');
    let dot = find_after_last(&v, start, '.');
    if dot - start > 1 {
        proof {
            let name = v@.subrange(start as int, v@.len() as int);
            assert(name.subrange(dot - start, name.len() as int) =~= v@.subrange(
                dot as int,
                v@.len() as int,
            ));
        }
        let mut out = string_of_range(&v, 0, dot);
        out.append("tmp");
        out
    } else {
        concat2(path, ".tmp")
    }
}

/// The places of one mirror entry.
#[derive(Debug)]
pub struct MirrorPaths {
    /// The directory of the entry.
    pub dir: String,
    /// The metadata file.
    pub torrent: String,
    /// The file the metadata is written to before it is moved into place.
    pub torrent_temp: String,
    /// The copy of the payload.
    pub payload: String,
    /// The file the payload is copied to before it is moved into place.
    pub payload_temp: String,
}

/// The places of the mirror entry of the torrent `info_hash`, whose
/// payload lies at `relative_path` inside the entry.
pub fn mirror_paths(store: &PackageStore, info_hash: &str, relative_path: &str) -> (p: MirrorPaths)
    ensures
        p.dir@ == join_spec(store.torrent_root@, info_hash@),
        p.torrent@ == join_spec(p.dir@, torrent_file_name()),
        p.torrent_temp@ == temp_sibling_spec(p.torrent@),
        p.payload@ == join_spec(p.dir@, relative_path@),
        p.payload_temp@ == temp_sibling_spec(p.payload@),
{
    let dir = store.torrent_dir(info_hash);
    let torrent = join_path(dir.as_str(), "resource.torrent");
    let torrent_temp = temp_sibling(torrent.as_str());
    let payload = join_path(dir.as_str(), relative_path);
    let payload_temp = temp_sibling(payload.as_str());
    MirrorPaths { dir, torrent, torrent_temp, payload, payload_temp }
}

/// What is looked at to find the mirror entry of a cached file.
#[derive(Debug)]
pub enum MirrorProbe {
    /// The mirror directory of an info hash that a source gives away.
    Entry { info_hash: String },
    /// A source that should give an info hash away and does not.
    Broken { error: MagError },
}

/// The mathematical value of a [`MirrorProbe`].
pub enum MirrorProbeView {
    Entry { info_hash: Seq<char> },
    Broken { error: MagErrorView },
}

impl View for MirrorProbe {
    type V = MirrorProbeView;

    open spec fn view(&self) -> MirrorProbeView {
        match self {
            MirrorProbe::Entry { info_hash } => MirrorProbeView::Entry { info_hash: info_hash@ },
            MirrorProbe::Broken { error } => MirrorProbeView::Broken { error: error@ },
        }
    }
}

/// The values of a list of probes.
pub open spec fn probes_view(v: Seq<MirrorProbe>) -> Seq<MirrorProbeView> {
    Seq::new(v.len(), |i: int| v[i]@)
}

/// The info hash that a source gives away.
pub open spec fn source_info_hash(url: Seq<char>) -> Result<Option<Seq<char>>, MagErrorView> {
    info_hash_spec(url, url_parts(trim_spec(url)), magnet_read(trim_spec(url)))
}

/// The probes for the first `n` sources: one for each source that gives
/// an info hash away, in order, up to and with the first broken source.
pub open spec fn probes_spec(urls: Seq<Seq<char>>, n: int) -> Seq<MirrorProbeView>
    decreases n,
{
    if n <= 0 {
        Seq::empty()
    } else {
        let before = probes_spec(urls, n - 1);
        if before.len() > 0 && before.last() is Broken {
            before
        } else {
            match source_info_hash(urls[n - 1]) {
                Ok(Some(h)) => before.push(MirrorProbeView::Entry { info_hash: h }),
                Ok(None) => before,
                Err(e) => before.push(MirrorProbeView::Broken { error: e }),
            }
        }
    }
}

/// Where the mirror entry of a cached file is looked for before a torrent
/// is created for it: the directories of the info hashes that its sources
/// give away, in the order of the sources. The first of them that holds a
/// metadata file is the entry; it is refreshed. A broken source ends the
/// search with its error. Where the search finds nothing, a torrent is
/// created for the file.
pub fn mirror_probes(urls: &Vec<String>) -> (probes: Vec<MirrorProbe>)
    ensures
        probes_view(probes@) == probes_spec(strings_view(urls@), urls@.len() as int),
{
    let ghost all = strings_view(urls@);
    let mut probes: Vec<MirrorProbe> = Vec::new();
    let mut i: usize = 0;
    assert(probes_view(probes@) =~= probes_spec(all, 0));
    while i < urls.len()
        invariant
            i <= urls@.len(),
            all == strings_view(urls@),
            probes_view(probes@) == probes_spec(all, i as int),
            !(probes@.len() > 0 && probes_view(probes@).last() is Broken),
        decreases urls@.len() - i,
    {
        let ghost before = probes_view(probes@);
        assert(all[i as int] == urls@[i as int]@);
        match info_hash_from_url(urls[i].as_str()) {
            Ok(Some(info_hash)) => {
                probes.push(MirrorProbe::Entry { info_hash });
                assert(probes_view(probes@) =~= before.push(
                    MirrorProbeView::Entry { info_hash: info_hash@ },
                ));
            },
            Ok(None) => {},
            Err(error) => {
                probes.push(MirrorProbe::Broken { error });
                proof {
                    assert(probes_view(probes@) =~= before.push(
                        MirrorProbeView::Broken { error: error@ },
                    ));
                    lemma_probes_stop(all, i + 1, all.len() as int);
                }
                return probes;
            },
        }
        i = i + 1;
    }
    probes
}

/// After a broken source no further probe is added.
pub proof fn lemma_probes_stop(urls: Seq<Seq<char>>, n: int, total: int)
    requires
        0 <= n <= total,
        probes_spec(urls, n).len() > 0,
        probes_spec(urls, n).last() is Broken,
    ensures
        probes_spec(urls, total) == probes_spec(urls, n),
    decreases total - n,
{
    if n < total {
        lemma_probes_stop(urls, n, total - 1);
    }
}

/// What is done to the payload copy of a mirror entry that is refreshed.
#[derive(Clone, Copy, Debug, PartialEq, Eq, Structural)]
pub enum PayloadRefresh {
    /// The copy is there: it is touched.
    Touch,
    /// The copy is missing: the cached file is copied in.
    Copy,
}

/// Decides what is done to the payload copy of an entry that is refreshed.
pub fn refresh_payload(payload_exists: bool) -> (r: PayloadRefresh)
    ensures
        r == if payload_exists {
            PayloadRefresh::Touch
        } else {
            PayloadRefresh::Copy
        },
{
    if payload_exists {
        PayloadRefresh::Touch
    } else {
        PayloadRefresh::Copy
    }
}

/// A mirror directory is an entry when it is there and holds a metadata file.
pub fn is_mirror_entry(dir_exists: bool, torrent_exists: bool) -> (r: bool)
    ensures
        r == (dir_exists && torrent_exists),
{
    dir_exists && torrent_exists
}

/// One step of writing or refreshing a mirror entry.
#[derive(Debug)]
pub enum MirrorStep {
    /// Make the directory and its parents.
    MakeDir { path: String },
    /// Write the torrent's metadata to `temp` and move that to `dest`.
    WriteTorrent { temp: String, dest: String },
    /// Copy the cached file to `temp`, move that to `dest` and touch it.
    CopyPayload { temp: String, dest: String },
    /// Set the modification time of `path` to now.
    Touch { path: String },
}

/// The mathematical value of a [`MirrorStep`].
pub enum MirrorStepView {
    MakeDir { path: Seq<char> },
    WriteTorrent { temp: Seq<char>, dest: Seq<char> },
    CopyPayload { temp: Seq<char>, dest: Seq<char> },
    Touch { path: Seq<char> },
}

impl View for MirrorStep {
    type V = MirrorStepView;

    open spec fn view(&self) -> MirrorStepView {
        match self {
            MirrorStep::MakeDir { path } => MirrorStepView::MakeDir { path: path@ },
            MirrorStep::WriteTorrent { temp, dest } => MirrorStepView::WriteTorrent {
                temp: temp@,
                dest: dest@,
            },
            MirrorStep::CopyPayload { temp, dest } => MirrorStepView::CopyPayload {
                temp: temp@,
                dest: dest@,
            },
            MirrorStep::Touch { path } => MirrorStepView::Touch { path: path@ },
        }
    }
}

/// The values of a list of mirror steps.
pub open spec fn mirror_steps_view(v: Seq<MirrorStep>) -> Seq<MirrorStepView> {
    Seq::new(v.len(), |i: int| v[i]@)
}

/// The steps that write a mirror entry: the metadata file is written by
/// way of its temporary file and touched, the payload is copied in by way
/// of its temporary file, and the directory is touched to mark it fresh.
pub fn plan_mirror_write(paths: &MirrorPaths) -> (steps: Vec<MirrorStep>)
    ensures
        mirror_steps_view(steps@) == seq![
            MirrorStepView::MakeDir { path: paths.dir@ },
            MirrorStepView::WriteTorrent { temp: paths.torrent_temp@, dest: paths.torrent@ },
            MirrorStepView::Touch { path: paths.torrent@ },
            MirrorStepView::CopyPayload { temp: paths.payload_temp@, dest: paths.payload@ },
            MirrorStepView::Touch { path: paths.dir@ },
        ],
{
    let mut steps: Vec<MirrorStep> = Vec::new();
    steps.push(MirrorStep::MakeDir { path: paths.dir.clone() });
    steps.push(
        MirrorStep::WriteTorrent { temp: paths.torrent_temp.clone(), dest: paths.torrent.clone() },
    );
    steps.push(MirrorStep::Touch { path: paths.torrent.clone() });
    steps.push(
        MirrorStep::CopyPayload { temp: paths.payload_temp.clone(), dest: paths.payload.clone() },
    );
    steps.push(MirrorStep::Touch { path: paths.dir.clone() });
    assert(mirror_steps_view(steps@) =~= seq![
        MirrorStepView::MakeDir { path: paths.dir@ },
        MirrorStepView::WriteTorrent { temp: paths.torrent_temp@, dest: paths.torrent@ },
        MirrorStepView::Touch { path: paths.torrent@ },
        MirrorStepView::CopyPayload { temp: paths.payload_temp@, dest: paths.payload@ },
        MirrorStepView::Touch { path: paths.dir@ },
    ]);
    steps
}

/// The steps that refresh a mirror entry: the metadata file is touched,
/// the payload copy is touched, or copied in where it is missing, and the
/// directory is touched to mark it fresh.
pub fn plan_mirror_refresh(paths: &MirrorPaths, payload_exists: bool) -> (steps: Vec<MirrorStep>)
    ensures
        mirror_steps_view(steps@) == seq![
            MirrorStepView::Touch { path: paths.torrent@ },
            if payload_exists {
                MirrorStepView::Touch { path: paths.payload@ }
            } else {
                MirrorStepView::CopyPayload { temp: paths.payload_temp@, dest: paths.payload@ }
            },
            MirrorStepView::Touch { path: paths.dir@ },
        ],
{
    let mut steps: Vec<MirrorStep> = Vec::new();
    steps.push(MirrorStep::Touch { path: paths.torrent.clone() });
    match refresh_payload(payload_exists) {
        PayloadRefresh::Touch => {
            steps.push(MirrorStep::Touch { path: paths.payload.clone() });
        },
        PayloadRefresh::Copy => {
            steps.push(
                MirrorStep::CopyPayload {
                    temp: paths.payload_temp.clone(),
                    dest: paths.payload.clone(),
                },
            );
        },
    }
    steps.push(MirrorStep::Touch { path: paths.dir.clone() });
    assert(mirror_steps_view(steps@) =~= seq![
        MirrorStepView::Touch { path: paths.torrent@ },
        if payload_exists {
            MirrorStepView::Touch { path: paths.payload@ }
        } else {
            MirrorStepView::CopyPayload { temp: paths.payload_temp@, dest: paths.payload@ }
        },
        MirrorStepView::Touch { path: paths.dir@ },
    ]);
    steps
}

} // verus!
