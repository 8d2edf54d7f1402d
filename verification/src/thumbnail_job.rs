//! The decisions of finding, or making, the thumbnail of a video, as a
//! state machine: each step takes what the last piece of outside work
//! reported and says which piece of outside work comes next.
use vstd::prelude::*;

use crate::path::{parent_or_self, path_text, MediaPath, PathModel};
use crate::thumbnail::{
    failed_thumbnail_path, failed_thumbnail_path_spec, failure_marker, failure_marker_spec,
    fits_decoder_budget, png_header_row_bytes, recognized_exactly, size_dirs, stored_thumbnail,
    stored_thumbnail_spec, thumbnail_cache_path, thumbnail_cache_path_spec, thumbnail_candidates,
    thumbnail_chunks_spec,
    thumbnail_candidates_spec, thumbnail_png_is_valid, thumbnail_png_is_valid_spec,
};

verus! {

/// How a job ended.
#[derive(Debug, Clone, Copy, PartialEq, Eq, Structural)]
pub enum JobOutcome {
    /// No thumbnail is available.
    NoThumbnail,
    /// The cache candidate with this index holds a current thumbnail.
    Cached(usize),
    /// A thumbnail was made and stored at the cache path of the first URI.
    Generated,
}

/// Where a job stands: which report it waits for.
#[derive(Debug, Clone, Copy, PartialEq, Eq, Structural)]
pub enum JobStage {
    /// Reading the cache candidate with this index.
    ProbeCache(usize),
    /// Reading the failure marker of the URI with this index.
    ProbeFailMarker(usize),
    /// Creating the directory of the thumbnail to make.
    MakeOutputDir,
    /// Creating the directory of the temporary image.
    MakeTempDir,
    /// Checking that `totem-video-thumbnailer` runs.
    ProbeTotem,
    /// Running `totem-video-thumbnailer`.
    RunTotem,
    /// Checking that `ffmpegthumbnailer` runs.
    ProbeFfmpeg,
    /// Running `ffmpegthumbnailer`.
    RunFfmpeg,
    /// Reading the temporary image.
    ReadTemp,
    /// Writing the thumbnail.
    WriteOutput,
    /// Writing, in place of the thumbnail, what its encoding wrote before it
    /// failed: the thumbnail's file is created before the encoding starts,
    /// so a failed encoding leaves what it wrote there; the failure is then
    /// recorded whether or not that write succeeds.
    WritePartialOutput,
    /// Removing the temporary image after storing the thumbnail.
    RemoveTempAfterSuccess,
    /// Removing the temporary image after a failed attempt.
    RemoveTempAfterFailure,
    /// Creating the directory of the failure marker.
    MakeMarkerDir,
    /// Writing the failure marker.
    WriteMarker,
    /// Over.
    Finished(JobOutcome),
}

/// A piece of outside work that a job asks for.
#[derive(Debug, Clone, PartialEq, Eq)]
pub enum ThumbnailAction {
    /// Report whether a regular file is at the path and, if it could be
    /// read, its bytes.
    ReadFile(MediaPath),
    /// Create the directory and its missing parents; report success.
    CreateDirAll(MediaPath),
    /// Run the program with the single argument `--help`, its output
    /// discarded; report whether it exits successfully.
    ProbeCommand(String),
    /// Run the program with these arguments, its output discarded; report
    /// whether it exits successfully.
    RunCommand(String, Vec<String>),
    /// Write these bytes to the file, replacing it; report success.
    WriteFile(MediaPath, Vec<u8>),
    /// Remove the file; what happens is not reported.
    RemoveFile(MediaPath),
    /// The job is over: the path of the thumbnail, if there is one.
    Finish(Option<MediaPath>),
}

/// What the outside work reported.
#[derive(Debug, Clone, PartialEq, Eq)]
pub enum ThumbnailEvent {
    /// After `ReadFile`: whether a regular file is there, and its bytes when
    /// it could be read.
    FileRead(bool, Option<Vec<u8>>),
    /// After any other action: whether it succeeded.
    Completed(bool),
}

/// The value of an action.
pub enum ActionModel {
    ReadFile(PathModel),
    CreateDirAll(PathModel),
    ProbeCommand(Seq<char>),
    RunCommand(Seq<char>, Seq<Seq<char>>),
    WriteFile(PathModel, Seq<u8>),
    RemoveFile(PathModel),
    Finish(Option<PathModel>),
}

/// The value of an event.
pub enum EventModel {
    FileRead(bool, Option<Seq<u8>>),
    Completed(bool),
}

impl View for ThumbnailAction {
    type V = ActionModel;

    open spec fn view(&self) -> ActionModel {
        match self {
            ThumbnailAction::ReadFile(p) => ActionModel::ReadFile(p@),
            ThumbnailAction::CreateDirAll(p) => ActionModel::CreateDirAll(p@),
            ThumbnailAction::ProbeCommand(c) => ActionModel::ProbeCommand(c@),
            ThumbnailAction::RunCommand(c, args) => ActionModel::RunCommand(
                c@,
                args@.map_values(|a: String| a@),
            ),
            ThumbnailAction::WriteFile(p, b) => ActionModel::WriteFile(p@, b@),
            ThumbnailAction::RemoveFile(p) => ActionModel::RemoveFile(p@),
            ThumbnailAction::Finish(p) => ActionModel::Finish(
                match p {
                    Some(q) => Some(q@),
                    None => None,
                },
            ),
        }
    }
}

impl View for ThumbnailEvent {
    type V = EventModel;

    open spec fn view(&self) -> EventModel {
        match self {
            ThumbnailEvent::FileRead(f, b) => EventModel::FileRead(
                *f,
                match b {
                    Some(v) => Some(v@),
                    None => None,
                },
            ),
            ThumbnailEvent::Completed(ok) => EventModel::Completed(*ok),
        }
    }
}

/// The value of a job: what it works on and where it stands.
pub struct JobModel {
    /// The root of the thumbnail cache.
    pub base: PathModel,
    /// The absolute path of the video.
    pub video: PathModel,
    /// The URIs of the video, the first being the one thumbnails are made for.
    pub uris: Seq<Seq<char>>,
    /// The video's modification time, in seconds.
    pub mtime: u64,
    /// Where a thumbnailer writes its image.
    pub temp: PathModel,
    /// Whether the job only looks in the cache.
    pub lookup_only: bool,
    pub stage: JobStage,
}

/// A search for the thumbnail of a video, which makes one when none is
/// cached and no failure is recorded, unless it only looks up. A made
/// thumbnail, or a failure marker, is written even when its encoding fails:
/// then what the encoder wrote before it failed is written.
pub struct ThumbnailJob {
    base: MediaPath,
    video: MediaPath,
    uris: Vec<String>,
    mtime: u64,
    temp: MediaPath,
    lookup_only: bool,
    candidates: Vec<(MediaPath, String)>,
    stage: JobStage,
}

// ---------------------------------------------------------------------
// The protocol
// ---------------------------------------------------------------------
/// The view of a list of URIs.
pub open spec fn uris_view(uris: Seq<String>) -> Seq<Seq<char>> {
    uris.map_values(|u: String| u@)
}

/// The number of cache places a job probes.
pub open spec fn candidate_count(m: JobModel) -> int {
    (m.uris.len() * 4) as int
}

/// The cache place with index `i`, with the URI its thumbnail must name.
pub open spec fn candidate(m: JobModel, i: int) -> (PathModel, Seq<char>) {
    thumbnail_candidates_spec(m.base, m.uris)[i]
}

/// Where the job stores the thumbnail it makes.
pub open spec fn output_path(m: JobModel) -> PathModel {
    thumbnail_cache_path_spec(m.base, m.uris[0], "normal"@)
}

/// Where the job records a failed attempt.
pub open spec fn marker_path(m: JobModel) -> PathModel {
    failed_thumbnail_path_spec(m.base, m.uris[0])
}

/// The directory that holds a path (`Path::parent`).
pub open spec fn parent_model(p: PathModel) -> PathModel {
    PathModel { absolute: p.absolute, segments: parent_or_self(p.segments) }
}

/// Whether a read found a current thumbnail of `uri`.
pub open spec fn read_is_valid(e: EventModel, uri: Seq<char>, mtime: u64) -> bool {
    match e {
        EventModel::FileRead(is_file, Some(bytes)) => is_file && thumbnail_png_is_valid_spec(
            bytes,
            uri,
            mtime,
        ),
        _ => false,
    }
}

/// Whether the outside work succeeded.
pub open spec fn succeeded(e: EventModel) -> bool {
    e matches EventModel::Completed(true)
}

/// What follows the cache: nothing for a lookup or a video without URI,
/// else the failure marker of the first URI.
pub open spec fn after_cache(m: JobModel) -> JobStage {
    if m.lookup_only || m.uris.len() == 0 {
        JobStage::Finished(JobOutcome::NoThumbnail)
    } else {
        JobStage::ProbeFailMarker(0)
    }
}

/// The first stage of a job.
pub open spec fn first_stage(m: JobModel) -> JobStage {
    if candidate_count(m) > 0 {
        JobStage::ProbeCache(0)
    } else {
        after_cache(m)
    }
}

/// The stage that follows the stage of `m` when `e` is reported.
pub open spec fn next_stage(m: JobModel, e: EventModel) -> JobStage {
    match m.stage {
        JobStage::ProbeCache(i) => if read_is_valid(e, candidate(m, i as int).1, m.mtime) {
            JobStage::Finished(JobOutcome::Cached(i))
        } else if i + 1 < candidate_count(m) {
            JobStage::ProbeCache((i + 1) as usize)
        } else {
            after_cache(m)
        },
        JobStage::ProbeFailMarker(i) => if read_is_valid(e, m.uris[i as int], m.mtime) {
            JobStage::Finished(JobOutcome::NoThumbnail)
        } else if i + 1 < m.uris.len() {
            JobStage::ProbeFailMarker((i + 1) as usize)
        } else {
            JobStage::MakeOutputDir
        },
        JobStage::MakeOutputDir => if succeeded(e) {
            JobStage::MakeTempDir
        } else {
            JobStage::MakeMarkerDir
        },
        JobStage::MakeTempDir => if succeeded(e) {
            JobStage::ProbeTotem
        } else {
            JobStage::MakeMarkerDir
        },
        JobStage::ProbeTotem => if succeeded(e) {
            JobStage::RunTotem
        } else {
            JobStage::ProbeFfmpeg
        },
        JobStage::RunTotem => if succeeded(e) {
            JobStage::ReadTemp
        } else {
            JobStage::ProbeFfmpeg
        },
        JobStage::ProbeFfmpeg => if succeeded(e) {
            JobStage::RunFfmpeg
        } else {
            JobStage::RemoveTempAfterFailure
        },
        JobStage::RunFfmpeg => if succeeded(e) {
            JobStage::ReadTemp
        } else {
            JobStage::RemoveTempAfterFailure
        },
        JobStage::ReadTemp => match e {
            EventModel::FileRead(true, Some(bytes)) => match stored_thumbnail_spec(
                bytes,
                m.uris[0],
                m.mtime,
            ) {
                Ok(_) => JobStage::WriteOutput,
                Err(Some(_)) => JobStage::WritePartialOutput,
                Err(None) => JobStage::MakeMarkerDir,
            },
            EventModel::FileRead(true, None) => JobStage::MakeMarkerDir,
            _ => JobStage::RemoveTempAfterFailure,
        },
        JobStage::WriteOutput => if succeeded(e) {
            JobStage::RemoveTempAfterSuccess
        } else {
            JobStage::MakeMarkerDir
        },
        JobStage::WritePartialOutput => JobStage::MakeMarkerDir,
        JobStage::RemoveTempAfterSuccess => JobStage::Finished(JobOutcome::Generated),
        JobStage::RemoveTempAfterFailure => JobStage::MakeMarkerDir,
        JobStage::MakeMarkerDir => if succeeded(e) {
            JobStage::WriteMarker
        } else {
            JobStage::Finished(JobOutcome::NoThumbnail)
        },
        JobStage::WriteMarker => JobStage::Finished(JobOutcome::NoThumbnail),
        JobStage::Finished(o) => JobStage::Finished(o),
    }
}

/// The arguments of `totem-video-thumbnailer`: size, URI, output image.
pub open spec fn totem_args(m: JobModel) -> Seq<Seq<char>> {
    seq!["-s"@, "256"@, m.uris[0], path_text(m.temp)]
}

/// The arguments of `ffmpegthumbnailer`: input video, output image, size,
/// and the position of the frame.
pub open spec fn ffmpeg_args(m: JobModel) -> Seq<Seq<char>> {
    seq!["-i"@, path_text(m.video), "-o"@, path_text(m.temp), "-s"@, "256"@, "-t"@, "10%"@]
}

/// What a job writes at the thumbnail's path, made from the bytes of the
/// report `e`: the stored thumbnail, or what its encoding wrote before it
/// failed.
pub open spec fn output_bytes(m: JobModel, e: EventModel) -> Seq<u8> {
    match e {
        EventModel::FileRead(_, Some(bytes)) => match stored_thumbnail_spec(bytes, m.uris[0], m.mtime) {
            Ok(v) => v,
            Err(Some(p)) => p,
            Err(None) => Seq::empty(),
        },
        _ => Seq::empty(),
    }
}

/// What a job writes as its failure marker: the marker, or what its
/// encoding wrote before it failed.
pub open spec fn marker_bytes(m: JobModel) -> Seq<u8> {
    match failure_marker_spec(m.uris[0], m.mtime) {
        Ok(v) => v,
        Err(p) => p,
    }
}

/// The action a job asks for on entering its stage; `e` is the report that
/// led there, whose bytes a stored thumbnail is made from.
pub open spec fn stage_action(m: JobModel, e: EventModel) -> ActionModel {
    match m.stage {
        JobStage::ProbeCache(i) => ActionModel::ReadFile(candidate(m, i as int).0),
        JobStage::ProbeFailMarker(i) => ActionModel::ReadFile(
            failed_thumbnail_path_spec(m.base, m.uris[i as int]),
        ),
        JobStage::MakeOutputDir => ActionModel::CreateDirAll(parent_model(output_path(m))),
        JobStage::MakeTempDir => ActionModel::CreateDirAll(parent_model(m.temp)),
        JobStage::ProbeTotem => ActionModel::ProbeCommand("totem-video-thumbnailer"@),
        JobStage::RunTotem => ActionModel::RunCommand("totem-video-thumbnailer"@, totem_args(m)),
        JobStage::ProbeFfmpeg => ActionModel::ProbeCommand("ffmpegthumbnailer"@),
        JobStage::RunFfmpeg => ActionModel::RunCommand("ffmpegthumbnailer"@, ffmpeg_args(m)),
        JobStage::ReadTemp => ActionModel::ReadFile(m.temp),
        JobStage::WriteOutput => ActionModel::WriteFile(output_path(m), output_bytes(m, e)),
        JobStage::WritePartialOutput => ActionModel::WriteFile(output_path(m), output_bytes(m, e)),
        JobStage::RemoveTempAfterSuccess => ActionModel::RemoveFile(m.temp),
        JobStage::RemoveTempAfterFailure => ActionModel::RemoveFile(m.temp),
        JobStage::MakeMarkerDir => ActionModel::CreateDirAll(parent_model(marker_path(m))),
        JobStage::WriteMarker => ActionModel::WriteFile(marker_path(m), marker_bytes(m)),
        JobStage::Finished(o) => ActionModel::Finish(
            match o {
                JobOutcome::NoThumbnail => None,
                JobOutcome::Cached(i) => Some(candidate(m, i as int).0),
                JobOutcome::Generated => Some(output_path(m)),
            },
        ),
    }
}

/// How far a job is from being over: every step before the end brings it
/// closer.
pub open spec fn remaining_steps(m: JobModel) -> int {
    match m.stage {
        JobStage::ProbeCache(i) => 13 + m.uris.len() + candidate_count(m) - i,
        JobStage::ProbeFailMarker(i) => 12 + m.uris.len() - i,
        JobStage::MakeOutputDir => 11,
        JobStage::MakeTempDir => 10,
        JobStage::ProbeTotem => 9,
        JobStage::RunTotem => 8,
        JobStage::ProbeFfmpeg => 7,
        JobStage::RunFfmpeg => 6,
        JobStage::ReadTemp => 5,
        JobStage::WriteOutput => 4,
        JobStage::WritePartialOutput => 3,
        JobStage::RemoveTempAfterFailure => 3,
        JobStage::MakeMarkerDir => 2,
        JobStage::RemoveTempAfterSuccess => 1,
        JobStage::WriteMarker => 1,
        JobStage::Finished(_) => 0,
    }
}

/// The stages in which a job may be: indices in range, and the URI list not
/// empty once thumbnails are made for its first URI.
pub open spec fn stage_in_range(m: JobModel) -> bool {
    &&& candidate_count(m) <= usize::MAX
    &&& match m.stage {
        JobStage::ProbeCache(i) => i < candidate_count(m),
        JobStage::ProbeFailMarker(i) => i < m.uris.len() && !m.lookup_only,
        JobStage::Finished(JobOutcome::NoThumbnail) => true,
        JobStage::Finished(JobOutcome::Cached(i)) => i < candidate_count(m),
        _ => m.uris.len() > 0 && !m.lookup_only,
    }
}

impl View for ThumbnailJob {
    type V = JobModel;

    closed spec fn view(&self) -> JobModel {
        JobModel {
            base: self.base@,
            video: self.video@,
            uris: uris_view(self.uris@),
            mtime: self.mtime,
            temp: self.temp@,
            lookup_only: self.lookup_only,
            stage: self.stage,
        }
    }
}

impl ThumbnailJob {
    #[verifier::type_invariant]
    spec fn well_formed(self) -> bool {
        &&& self.candidates@.map_values(|c: (MediaPath, String)| (c.0@, c.1@))
            == thumbnail_candidates_spec(self.base@, uris_view(self.uris@))
        &&& stage_in_range(self@)
    }

    /// The number of candidates.
    proof fn lemma_candidates_len(&self)
        requires
            self.candidates@.map_values(|c: (MediaPath, String)| (c.0@, c.1@))
                == thumbnail_candidates_spec(self.base@, uris_view(self.uris@)),
        ensures
            self.candidates@.len() == candidate_count(self@),
            self@.uris.len() == self.uris@.len(),
    {
        let v = self.candidates@.map_values(|c: (MediaPath, String)| (c.0@, c.1@));
        assert(v.len() == self.candidates@.len());
        assert(uris_view(self.uris@).len() == self.uris@.len());
    }

    /// The candidate paths and URIs, by index.
    proof fn lemma_candidate(&self, i: int)
        requires
            0 <= i < self.candidates@.len(),
            self.candidates@.map_values(|c: (MediaPath, String)| (c.0@, c.1@))
                == thumbnail_candidates_spec(self.base@, uris_view(self.uris@)),
        ensures
            self.candidates@[i].0@ == candidate(self@, i).0,
            self.candidates@[i].1@ == candidate(self@, i).1,
    {
        let v = self.candidates@.map_values(|c: (MediaPath, String)| (c.0@, c.1@));
        assert(v[i] == (self.candidates@[i].0@, self.candidates@[i].1@));
    }

    /// Starts a job for a video: the root of the thumbnail cache, the
    /// video's absolute path, its URIs (see `uri_variants`), its
    /// modification time, where a thumbnailer may write its image, and
    /// whether to stop after the cache. Returns the job and its first action.
    pub fn start(
        base: MediaPath,
        video: MediaPath,
        uris: Vec<String>,
        mtime: u64,
        temp: MediaPath,
        lookup_only: bool,
    ) -> (r: (ThumbnailJob, ThumbnailAction))
        requires
            uris@.len() * 4 <= usize::MAX,
        ensures
            r.0@.base == base@,
            r.0@.video == video@,
            r.0@.uris == uris_view(uris@),
            r.0@.mtime == mtime,
            r.0@.temp == temp@,
            r.0@.lookup_only == lookup_only,
            r.0@.stage == first_stage(r.0@),
            stage_in_range(r.0@),
            r.1@ == stage_action(r.0@, EventModel::Completed(true)),
    {
        let candidates = thumbnail_candidates(&base, &uris);
        let stage = if candidates.len() > 0 {
            JobStage::ProbeCache(0)
        } else if lookup_only || uris.len() == 0 {
            JobStage::Finished(JobOutcome::NoThumbnail)
        } else {
            JobStage::ProbeFailMarker(0)
        };
        proof {
            let v = candidates@.map_values(|c: (MediaPath, String)| (c.0@, c.1@));
            assert(v.len() == candidates@.len());
            assert(uris_view(uris@).len() == uris@.len());
        }
        let job = ThumbnailJob { base, video, uris, mtime, temp, lookup_only, candidates, stage };
        let action = job.action_for(&ThumbnailEvent::Completed(true));
        (job, action)
    }

    /// Where the job stands.
    pub fn stage(&self) -> (r: JobStage)
        ensures
            r == self@.stage,
    {
        self.stage
    }

    /// The action of the current stage, given the report that led there.
    fn action_for(&self, e: &ThumbnailEvent) -> (r: ThumbnailAction)
        requires
            stage_in_range(self@),
            self.candidates@.map_values(|c: (MediaPath, String)| (c.0@, c.1@))
                == thumbnail_candidates_spec(self.base@, uris_view(self.uris@)),
        ensures
            r@ == stage_action(self@, e@),
            self.stage == JobStage::WriteOutput && (e@ matches EventModel::FileRead(_, Some(bytes))
                && stored_thumbnail_spec(bytes, self@.uris[0], self.mtime) is Ok)
                && fits_decoder_budget(
                png_header_row_bytes(output_bytes(self@, e@)),
                thumbnail_chunks_spec(self@.uris[0], self.mtime),
            ) ==> recognized_exactly(output_bytes(self@, e@), self@.uris[0], self.mtime),
            self.stage == JobStage::WriteMarker && failure_marker_spec(self@.uris[0], self.mtime) is Ok
                && fits_decoder_budget(4, thumbnail_chunks_spec(self@.uris[0], self.mtime))
                ==> recognized_exactly(
                marker_bytes(self@),
                self@.uris[0],
                self.mtime,
            ),
    {
        proof {
            self.lemma_candidates_len();
        }
        match self.stage {
            JobStage::ProbeCache(i) => {
                proof {
                    self.lemma_candidate(i as int);
                }
                ThumbnailAction::ReadFile(self.candidates[i].0.duplicate())
            },
            JobStage::ProbeFailMarker(i) => ThumbnailAction::ReadFile(
                failed_thumbnail_path(&self.base, self.uris[i].as_str()),
            ),
            JobStage::MakeOutputDir => {
                let out = thumbnail_cache_path(&self.base, self.uris[0].as_str(), "normal");
                ThumbnailAction::CreateDirAll(out.parent_or_self())
            },
            JobStage::MakeTempDir => ThumbnailAction::CreateDirAll(self.temp.parent_or_self()),
            JobStage::ProbeTotem => ThumbnailAction::ProbeCommand(
                String::from_str("totem-video-thumbnailer"),
            ),
            JobStage::RunTotem => {
                let mut args: Vec<String> = Vec::new();
                args.push(String::from_str("-s"));
                args.push(String::from_str("256"));
                args.push(self.uris[0].clone());
                args.push(self.temp.to_text());
                assert(args@.map_values(|a: String| a@) =~= totem_args(self@));
                ThumbnailAction::RunCommand(String::from_str("totem-video-thumbnailer"), args)
            },
            JobStage::ProbeFfmpeg => ThumbnailAction::ProbeCommand(
                String::from_str("ffmpegthumbnailer"),
            ),
            JobStage::RunFfmpeg => {
                let mut args: Vec<String> = Vec::new();
                args.push(String::from_str("-i"));
                args.push(self.video.to_text());
                args.push(String::from_str("-o"));
                args.push(self.temp.to_text());
                args.push(String::from_str("-s"));
                args.push(String::from_str("256"));
                args.push(String::from_str("-t"));
                args.push(String::from_str("10%"));
                assert(args@.map_values(|a: String| a@) =~= ffmpeg_args(self@));
                ThumbnailAction::RunCommand(String::from_str("ffmpegthumbnailer"), args)
            },
            JobStage::ReadTemp => ThumbnailAction::ReadFile(self.temp.duplicate()),
            JobStage::WriteOutput | JobStage::WritePartialOutput => {
                let out = thumbnail_cache_path(&self.base, self.uris[0].as_str(), "normal");
                let bytes = match e {
                    ThumbnailEvent::FileRead(_, Some(b)) => {
                        match stored_thumbnail(b.as_slice(), self.uris[0].as_str(), self.mtime) {
                            Ok(png) => png,
                            Err(Some(partial)) => partial,
                            Err(None) => Vec::new(),
                        }
                    },
                    _ => Vec::new(),
                };
                ThumbnailAction::WriteFile(out, bytes)
            },
            JobStage::RemoveTempAfterSuccess => ThumbnailAction::RemoveFile(self.temp.duplicate()),
            JobStage::RemoveTempAfterFailure => ThumbnailAction::RemoveFile(self.temp.duplicate()),
            JobStage::MakeMarkerDir => {
                let marker = failed_thumbnail_path(&self.base, self.uris[0].as_str());
                ThumbnailAction::CreateDirAll(marker.parent_or_self())
            },
            JobStage::WriteMarker => {
                let marker = failed_thumbnail_path(&self.base, self.uris[0].as_str());
                let bytes = match failure_marker(self.uris[0].as_str(), self.mtime) {
                    Ok(b) => b,
                    Err(partial) => partial,
                };
                ThumbnailAction::WriteFile(marker, bytes)
            },
            JobStage::Finished(o) => match o {
                JobOutcome::NoThumbnail => ThumbnailAction::Finish(None),
                JobOutcome::Cached(i) => {
                    proof {
                        self.lemma_candidate(i as int);
                    }
                    ThumbnailAction::Finish(Some(self.candidates[i].0.duplicate()))
                },
                JobOutcome::Generated => ThumbnailAction::Finish(
                    Some(thumbnail_cache_path(&self.base, self.uris[0].as_str(), "normal")),
                ),
            },
        }
    }

    /// Takes the report of the last action and returns the next action.
    pub fn step(&mut self, event: ThumbnailEvent) -> (r: ThumbnailAction)
        ensures
            final(self)@.base == old(self)@.base,
            final(self)@.video == old(self)@.video,
            final(self)@.uris == old(self)@.uris,
            final(self)@.mtime == old(self)@.mtime,
            final(self)@.temp == old(self)@.temp,
            final(self)@.lookup_only == old(self)@.lookup_only,
            final(self)@.stage == next_stage(old(self)@, event@),
            r@ == stage_action(final(self)@, event@),
            stage_in_range(final(self)@),
            final(self)@.stage == JobStage::WriteOutput && fits_decoder_budget(
                png_header_row_bytes(output_bytes(final(self)@, event@)),
                thumbnail_chunks_spec(final(self)@.uris[0], final(self)@.mtime),
            ) ==> recognized_exactly(
                output_bytes(final(self)@, event@),
                final(self)@.uris[0],
                final(self)@.mtime,
            ),
            final(self)@.stage == JobStage::WriteMarker && failure_marker_spec(
                final(self)@.uris[0],
                final(self)@.mtime,
            ) is Ok && fits_decoder_budget(
                4,
                thumbnail_chunks_spec(final(self)@.uris[0], final(self)@.mtime),
            ) ==> recognized_exactly(
                marker_bytes(final(self)@),
                final(self)@.uris[0],
                final(self)@.mtime,
            ),
    {
        proof {
            use_type_invariant(&*self);
        }
        let ghost m = self@;
        proof {
            self.lemma_candidates_len();
        }
        let next = match self.stage {
            JobStage::ProbeCache(i) => {
                proof {
                    self.lemma_candidate(i as int);
                }
                if self.read_is_valid(&event, self.candidates[i].1.as_str()) {
                    JobStage::Finished(JobOutcome::Cached(i))
                } else if i < self.candidates.len() - 1 {
                    JobStage::ProbeCache(i + 1)
                } else if self.lookup_only || self.uris.len() == 0 {
                    JobStage::Finished(JobOutcome::NoThumbnail)
                } else {
                    JobStage::ProbeFailMarker(0)
                }
            },
            JobStage::ProbeFailMarker(i) => {
                if self.read_is_valid(&event, self.uris[i].as_str()) {
                    JobStage::Finished(JobOutcome::NoThumbnail)
                } else if i < self.uris.len() - 1 {
                    JobStage::ProbeFailMarker(i + 1)
                } else {
                    JobStage::MakeOutputDir
                }
            },
            JobStage::MakeOutputDir => if is_success(&event) {
                JobStage::MakeTempDir
            } else {
                JobStage::MakeMarkerDir
            },
            JobStage::MakeTempDir => if is_success(&event) {
                JobStage::ProbeTotem
            } else {
                JobStage::MakeMarkerDir
            },
            JobStage::ProbeTotem => if is_success(&event) {
                JobStage::RunTotem
            } else {
                JobStage::ProbeFfmpeg
            },
            JobStage::RunTotem => if is_success(&event) {
                JobStage::ReadTemp
            } else {
                JobStage::ProbeFfmpeg
            },
            JobStage::ProbeFfmpeg => if is_success(&event) {
                JobStage::RunFfmpeg
            } else {
                JobStage::RemoveTempAfterFailure
            },
            JobStage::RunFfmpeg => if is_success(&event) {
                JobStage::ReadTemp
            } else {
                JobStage::RemoveTempAfterFailure
            },
            JobStage::ReadTemp => match &event {
                ThumbnailEvent::FileRead(true, Some(bytes)) => {
                    match stored_thumbnail(bytes.as_slice(), self.uris[0].as_str(), self.mtime) {
                        Ok(_) => JobStage::WriteOutput,
                        Err(Some(_)) => JobStage::WritePartialOutput,
                        Err(None) => JobStage::MakeMarkerDir,
                    }
                },
                ThumbnailEvent::FileRead(true, None) => JobStage::MakeMarkerDir,
                _ => JobStage::RemoveTempAfterFailure,
            },
            JobStage::WriteOutput => if is_success(&event) {
                JobStage::RemoveTempAfterSuccess
            } else {
                JobStage::MakeMarkerDir
            },
            JobStage::WritePartialOutput => JobStage::MakeMarkerDir,
            JobStage::RemoveTempAfterSuccess => JobStage::Finished(JobOutcome::Generated),
            JobStage::RemoveTempAfterFailure => JobStage::MakeMarkerDir,
            JobStage::MakeMarkerDir => if is_success(&event) {
                JobStage::WriteMarker
            } else {
                JobStage::Finished(JobOutcome::NoThumbnail)
            },
            JobStage::WriteMarker => JobStage::Finished(JobOutcome::NoThumbnail),
            JobStage::Finished(o) => JobStage::Finished(o),
        };
        assert(next == next_stage(m, event@));
        self.stage = next;
        proof {
            use_type_invariant(&*self);
        }
        self.action_for(&event)
    }

    /// Whether a read found a current thumbnail of `uri`.
    fn read_is_valid(&self, e: &ThumbnailEvent, uri: &str) -> (r: bool)
        ensures
            r == read_is_valid(e@, uri@, self.mtime),
    {
        match e {
            ThumbnailEvent::FileRead(is_file, Some(bytes)) => *is_file && thumbnail_png_is_valid(
                bytes.as_slice(),
                uri,
                self.mtime,
            ),
            _ => false,
        }
    }
}

// ---------------------------------------------------------------------
// Laws of the protocol
// ---------------------------------------------------------------------
/// The job after one step.
pub open spec fn after_step(m: JobModel, e: EventModel) -> JobModel {
    JobModel { stage: next_stage(m, e), ..m }
}

/// A job that only looks up reads files and finishes: it never creates,
/// writes or removes anything and never runs a program.
pub proof fn lemma_lookup_only_reads(m: JobModel, e: EventModel)
    requires
        stage_in_range(m),
        m.lookup_only,
    ensures
        stage_in_range(after_step(m, e)),
        stage_action(after_step(m, e), e) is ReadFile || stage_action(after_step(m, e), e) is Finish,
{
}

/// Every write of a job goes into the thumbnail cache: to the thumbnail
/// of the video's first URI or to its failure marker, both below the root of
/// the cache.
pub proof fn lemma_writes_stay_in_cache(m: JobModel, e: EventModel)
    ensures
        stage_action(m, e) matches ActionModel::WriteFile(p, _) ==> (p == output_path(m) || p
            == marker_path(m)) && p.absolute == m.base.absolute && p.segments.take(
            m.base.segments.len() as int,
        ) == m.base.segments,
{
    if stage_action(m, e) is WriteFile {
        let p = if m.stage == JobStage::WriteOutput || m.stage == JobStage::WritePartialOutput {
            output_path(m)
        } else {
            marker_path(m)
        };
        let n = m.base.segments.len() as int;
        assert(p.segments.take(n) =~= m.base.segments);
    }
}

/// Every step of a job that is not over brings it closer to its end, so a
/// job always finishes.
pub proof fn lemma_job_progresses(m: JobModel, e: EventModel)
    requires
        stage_in_range(m),
        !(m.stage is Finished),
    ensures
        0 <= remaining_steps(after_step(m, e)) < remaining_steps(m),
        stage_in_range(after_step(m, e)),
{
}

/// A job whose first probe reads a current thumbnail of its first URI
/// finishes at once with the path where a thumbnail is made: a thumbnail
/// that a job stored is found by the next job for the same video, which
/// gives the same path and runs no thumbnailer.
pub proof fn lemma_stored_thumbnail_found_first(m: JobModel, bytes: Seq<u8>)
    requires
        stage_in_range(m),
        m.stage == first_stage(m),
        m.uris.len() > 0,
        thumbnail_png_is_valid_spec(bytes, m.uris[0], m.mtime),
    ensures
        stage_action(m, EventModel::Completed(true)) == ActionModel::ReadFile(output_path(m)),
        after_step(m, EventModel::FileRead(true, Some(bytes))).stage == JobStage::Finished(
            JobOutcome::Cached(0),
        ),
        stage_action(
            after_step(m, EventModel::FileRead(true, Some(bytes))),
            EventModel::FileRead(true, Some(bytes)),
        ) == ActionModel::Finish(Some(output_path(m))),
{
    reveal_strlit("normal");
    assert(size_dirs()[0] == "normal"@);
    assert(candidate(m, 0) == (output_path(m), m.uris[0]));
}

/// A job that reads a current failure marker of one of its URIs finishes
/// without a thumbnail: a failure that a job recorded is remembered by the
/// next job for the same, unchanged video, which runs no thumbnailer.
pub proof fn lemma_recorded_failure_ends_job(m: JobModel, i: usize, bytes: Seq<u8>)
    requires
        stage_in_range(m),
        m.stage == JobStage::ProbeFailMarker(i),
        thumbnail_png_is_valid_spec(bytes, m.uris[i as int], m.mtime),
    ensures
        stage_action(m, EventModel::Completed(true)) == ActionModel::ReadFile(
            failed_thumbnail_path_spec(m.base, m.uris[i as int]),
        ),
        after_step(m, EventModel::FileRead(true, Some(bytes))).stage == JobStage::Finished(
            JobOutcome::NoThumbnail,
        ),
        stage_action(
            after_step(m, EventModel::FileRead(true, Some(bytes))),
            EventModel::FileRead(true, Some(bytes)),
        ) == ActionModel::Finish(None),
{
}

/// A failure marker recorded for another modification time does not stop a
/// job: the job goes on to the next marker, or to making a thumbnail.
pub proof fn lemma_stale_marker_does_not_stop_job(m: JobModel, i: usize, bytes: Seq<u8>, t: u64)
    requires
        stage_in_range(m),
        m.stage == JobStage::ProbeFailMarker(i),
        recognized_exactly(bytes, m.uris[i as int], t),
        t != m.mtime,
    ensures
        after_step(m, EventModel::FileRead(true, Some(bytes))).stage == if i + 1 < m.uris.len() {
            JobStage::ProbeFailMarker((i + 1) as usize)
        } else {
            JobStage::MakeOutputDir
        },
{
    assert(!thumbnail_png_is_valid_spec(bytes, m.uris[i as int], m.mtime));
}

/// The job after a run of reports, given in order.
pub open spec fn after_steps(m: JobModel, es: Seq<EventModel>) -> JobModel
    decreases es.len(),
{
    if es.len() == 0 {
        m
    } else {
        after_step(after_steps(m, es.drop_last()), es.last())
    }
}

/// The report of a read that found no file.
pub open spec fn missing_read() -> EventModel {
    EventModel::FileRead(false, None)
}

/// `n` reads that found no file.
pub open spec fn misses(n: nat) -> Seq<EventModel> {
    Seq::new(n, |i: int| missing_read())
}

/// The cache place with index `k`: the URIs in turn, each in the size
/// directories `normal`, `large`, `x-large` and `xx-large`.
pub open spec fn cache_place(m: JobModel, k: int) -> PathModel {
    thumbnail_cache_path_spec(m.base, m.uris[k as int / 4], size_dirs()[k % 4])
}

proof fn lemma_misses_keep_probing(m: JobModel, j: nat)
    requires
        stage_in_range(m),
        m.stage == JobStage::ProbeCache(0),
        j < candidate_count(m),
    ensures
        after_steps(m, misses(j)) == (JobModel { stage: JobStage::ProbeCache(j as usize), ..m }),
    decreases j,
{
    if j > 0 {
        lemma_misses_keep_probing(m, (j - 1) as nat);
        assert(misses(j).drop_last() == misses((j - 1) as nat));
        assert(misses(j).last() == missing_read());
    } else {
        assert(misses(0).len() == 0);
    }
}

/// The cache lookup probes every cache place of every URI of the video, in
/// order, whether or not the job only looks up: after `k` reads that find
/// nothing it reads cache place `k`; when that place holds a current
/// thumbnail of its URI, the job finishes with the path of that place.
pub proof fn lemma_cache_probe_visits_every_place(m: JobModel, k: nat, bytes: Seq<u8>)
    requires
        stage_in_range(m),
        m.stage == JobStage::ProbeCache(0),
        k < m.uris.len() * 4,
    ensures
        forall|e: EventModel| #[trigger] stage_action(after_steps(m, misses(k)), e) == ActionModel::ReadFile(cache_place(m, k as int)),
        thumbnail_png_is_valid_spec(bytes, m.uris[k as int / 4], m.mtime) ==> ({
            let done = after_step(after_steps(m, misses(k)), EventModel::FileRead(true, Some(bytes)));
            &&& done.stage == JobStage::Finished(JobOutcome::Cached(k as usize))
            &&& forall|e: EventModel| #[trigger] stage_action(done, e) == ActionModel::Finish(Some(cache_place(m, k as int)))
        }),
{
    lemma_misses_keep_probing(m, k);
    assert(candidate(m, k as int) == (cache_place(m, k as int), m.uris[k as int / 4]));
}

/// When no cache place holds a current thumbnail, a job that only looks up
/// finishes without one, and any other job goes on to the failure marker of
/// the video's first URI.
pub proof fn lemma_cache_miss_everywhere(m: JobModel)
    requires
        stage_in_range(m),
        m.stage == JobStage::ProbeCache(0),
    ensures
        ({
            let done = after_steps(m, misses(m.uris.len() * 4));
            &&& m.lookup_only ==> done.stage == JobStage::Finished(JobOutcome::NoThumbnail)
                && stage_action(done, missing_read()) == ActionModel::Finish(None)
            &&& !m.lookup_only ==> stage_action(done, missing_read()) == ActionModel::ReadFile(
                failed_thumbnail_path_spec(m.base, m.uris[0]),
            )
        }),
{
    let n = (m.uris.len() * 4) as nat;
    lemma_misses_keep_probing(m, (n - 1) as nat);
    assert(misses(n).drop_last() == misses((n - 1) as nat));
    assert(misses(n).last() == missing_read());
}

proof fn lemma_marker_misses(m: JobModel, j: nat)
    requires
        stage_in_range(m),
        m.stage == JobStage::ProbeFailMarker(0),
        j < m.uris.len(),
    ensures
        after_steps(m, misses(j)) == (JobModel { stage: JobStage::ProbeFailMarker(j as usize), ..m }),
    decreases j,
{
    if j > 0 {
        lemma_marker_misses(m, (j - 1) as nat);
        assert(misses(j).drop_last() == misses((j - 1) as nat));
        assert(misses(j).last() == missing_read());
    } else {
        assert(misses(0).len() == 0);
    }
}

/// A job reads the failure marker of every URI of the video, in order; when
/// none is there, it starts making a thumbnail by creating the directory of
/// the normal-size cache place of the first URI.
pub proof fn lemma_marker_probe_visits_every_uri(m: JobModel, k: nat)
    requires
        stage_in_range(m),
        m.stage == JobStage::ProbeFailMarker(0),
        k <= m.uris.len(),
    ensures
        k < m.uris.len() ==> stage_action(after_steps(m, misses(k)), missing_read())
            == ActionModel::ReadFile(failed_thumbnail_path_spec(m.base, m.uris[k as int])),
        k == m.uris.len() ==> stage_action(after_steps(m, misses(k)), missing_read())
            == ActionModel::CreateDirAll(
            parent_model(thumbnail_cache_path_spec(m.base, m.uris[0], "normal"@)),
        ),
{
    if k < m.uris.len() {
        lemma_marker_misses(m, k);
    } else {
        lemma_marker_misses(m, (k - 1) as nat);
        assert(misses(k).drop_last() == misses((k - 1) as nat));
        assert(misses(k).last() == missing_read());
    }
}

/// When a thumbnailer run reports success, be it `totem-video-thumbnailer`
/// or, when that one is missing or failed, `ffmpegthumbnailer`, the job
/// reads the temporary image; when the image stores, the job writes the
/// stored thumbnail to the normal-size cache place of the video's first URI,
/// removes the temporary image and finishes with the path of the thumbnail.
pub proof fn lemma_successful_run_is_stored(m: JobModel, image: Seq<u8>, stored: Seq<u8>, removed: bool)
    requires
        stage_in_range(m),
        m.stage == JobStage::RunTotem || m.stage == JobStage::RunFfmpeg,
        stored_thumbnail_spec(image, m.uris[0], m.mtime) == Ok::<Seq<u8>, Option<Seq<u8>>>(stored),
    ensures
        ({
            let out = thumbnail_cache_path_spec(m.base, m.uris[0], "normal"@);
            let ran = EventModel::Completed(true);
            let read = EventModel::FileRead(true, Some(image));
            let m1 = after_step(m, ran);
            let m2 = after_step(m1, read);
            let m3 = after_step(m2, ran);
            let m4 = after_step(m3, EventModel::Completed(removed));
            &&& stage_action(m1, ran) == ActionModel::ReadFile(m.temp)
            &&& stage_action(m2, read) == ActionModel::WriteFile(out, stored)
            &&& stage_action(m3, ran) == ActionModel::RemoveFile(m.temp)
            &&& m4.stage == JobStage::Finished(JobOutcome::Generated)
            &&& stage_action(m4, EventModel::Completed(removed)) == ActionModel::Finish(Some(out))
        }),
{
}

/// When `ffmpegthumbnailer`, the last thumbnailer tried, is missing or
/// fails, the job removes the temporary image, creates the directory of the
/// failure marker of the video's first URI, writes the marker there and
/// finishes without a thumbnail.
pub proof fn lemma_failed_generation_records_marker(m: JobModel, marker: Seq<u8>, removed: bool, written: bool)
    requires
        stage_in_range(m),
        m.stage == JobStage::ProbeFfmpeg || m.stage == JobStage::RunFfmpeg,
        failure_marker_spec(m.uris[0], m.mtime) == Ok::<Seq<u8>, Seq<u8>>(marker),
    ensures
        ({
            let path = failed_thumbnail_path_spec(m.base, m.uris[0]);
            let failed = EventModel::Completed(false);
            let ok = EventModel::Completed(true);
            let m1 = after_step(m, failed);
            let m2 = after_step(m1, EventModel::Completed(removed));
            let m3 = after_step(m2, ok);
            let m4 = after_step(m3, EventModel::Completed(written));
            &&& stage_action(m1, failed) == ActionModel::RemoveFile(m.temp)
            &&& stage_action(m2, EventModel::Completed(removed)) == ActionModel::CreateDirAll(parent_model(path))
            &&& stage_action(m3, ok) == ActionModel::WriteFile(path, marker)
            &&& m4.stage == JobStage::Finished(JobOutcome::NoThumbnail)
            &&& stage_action(m4, EventModel::Completed(written)) == ActionModel::Finish(None)
        }),
{
}

/// When `totem-video-thumbnailer` is missing or fails, the job falls back to
/// `ffmpegthumbnailer`: it checks that it runs, then runs it on the video
/// with the temporary image as output.
pub proof fn lemma_totem_failure_falls_back_to_ffmpeg(m: JobModel)
    requires
        stage_in_range(m),
        m.stage == JobStage::ProbeTotem || m.stage == JobStage::RunTotem,
    ensures
        ({
            let failed = EventModel::Completed(false);
            let ok = EventModel::Completed(true);
            let m1 = after_step(m, failed);
            let m2 = after_step(m1, ok);
            &&& stage_action(m1, failed) == ActionModel::ProbeCommand("ffmpegthumbnailer"@)
            &&& stage_action(m2, ok) == ActionModel::RunCommand(
                "ffmpegthumbnailer"@,
                seq!["-i"@, path_text(m.video), "-o"@, path_text(m.temp), "-s"@, "256"@, "-t"@, "10%"@],
            )
        }),
{
}

/// A job that has finished stays finished, with the same answer.
pub proof fn lemma_finished_is_final(m: JobModel, e: EventModel)
    requires
        m.stage is Finished,
    ensures
        after_step(m, e).stage == m.stage,
        stage_action(after_step(m, e), e) == stage_action(m, e),
{
}

fn is_success(e: &ThumbnailEvent) -> (r: bool)
    ensures
        r == succeeded(e@),
{
    match e {
        ThumbnailEvent::Completed(ok) => *ok,
        _ => false,
    }
}

} // verus!
