use sapling::path::MediaPath;
use sapling::thumbnail::{failed_thumbnail_path, failure_marker, stored_thumbnail, thumbnail_cache_path};
use sapling::thumbnail_job::{JobOutcome, JobStage, ThumbnailAction, ThumbnailEvent, ThumbnailJob};

fn abs(segs: &[&str]) -> MediaPath {
    MediaPath { absolute: true, segments: segs.iter().map(|s| s.to_string()).collect() }
}

fn plain_png() -> Vec<u8> {
    let mut out = Vec::new();
    {
        let mut enc = png::Encoder::new(&mut out, 1, 1);
        enc.set_color(png::ColorType::Rgba);
        enc.set_depth(png::BitDepth::Eight);
        let mut w = enc.write_header().unwrap();
        w.write_image_data(&[9, 9, 9, 9]).unwrap();
    }
    out
}

const URI: &str = "file:///videos/a.mp4";

fn job(lookup_only: bool) -> (ThumbnailJob, ThumbnailAction) {
    ThumbnailJob::start(
        abs(&["cache", "thumbnails"]),
        abs(&["videos", "a.mp4"]),
        vec![URI.to_string()],
        1234,
        abs(&["tmp", "sapling-thumb-1.png"]),
        lookup_only,
    )
}

fn missing() -> ThumbnailEvent {
    ThumbnailEvent::FileRead(false, None)
}

#[test]
fn lookup_reads_each_cache_size_then_gives_up() {
    let base = abs(&["cache", "thumbnails"]);
    let (mut j, mut a) = job(true);
    for size in ["normal", "large", "x-large", "xx-large"] {
        assert_eq!(a, ThumbnailAction::ReadFile(thumbnail_cache_path(&base, URI, size)));
        a = j.step(missing());
    }
    assert_eq!(a, ThumbnailAction::Finish(None));
    assert_eq!(j.stage(), JobStage::Finished(JobOutcome::NoThumbnail));
    assert_eq!(j.step(missing()), ThumbnailAction::Finish(None));
}

#[test]
fn a_current_cached_thumbnail_is_returned() {
    let base = abs(&["cache", "thumbnails"]);
    let (mut j, _) = job(true);
    let stale = failure_marker(URI, 1).unwrap();
    let current = failure_marker(URI, 1234).unwrap();
    assert_eq!(
        j.step(ThumbnailEvent::FileRead(true, Some(stale))),
        ThumbnailAction::ReadFile(thumbnail_cache_path(&base, URI, "large"))
    );
    let a = j.step(ThumbnailEvent::FileRead(true, Some(current)));
    assert_eq!(a, ThumbnailAction::Finish(Some(thumbnail_cache_path(&base, URI, "large"))));
    assert_eq!(j.stage(), JobStage::Finished(JobOutcome::Cached(1)));
}

#[test]
fn a_recorded_failure_stops_generation() {
    let base = abs(&["cache", "thumbnails"]);
    let (mut j, _) = job(false);
    for _ in 0..3 {
        j.step(missing());
    }
    let a = j.step(missing());
    assert_eq!(a, ThumbnailAction::ReadFile(failed_thumbnail_path(&base, URI)));
    let marker = failure_marker(URI, 1234).unwrap();
    assert_eq!(j.step(ThumbnailEvent::FileRead(true, Some(marker))), ThumbnailAction::Finish(None));
}

fn to_generation(j: &mut ThumbnailJob) -> ThumbnailAction {
    for _ in 0..4 {
        j.step(missing());
    }
    j.step(missing())
}

#[test]
fn generation_tries_totem_then_stores_the_thumbnail() {
    let base = abs(&["cache", "thumbnails"]);
    let output = thumbnail_cache_path(&base, URI, "normal");
    let (mut j, _) = job(false);
    let a = to_generation(&mut j);
    assert_eq!(a, ThumbnailAction::CreateDirAll(abs(&["cache", "thumbnails", "normal"])));
    assert_eq!(j.step(ThumbnailEvent::Completed(true)), ThumbnailAction::CreateDirAll(abs(&["tmp"])));
    assert_eq!(
        j.step(ThumbnailEvent::Completed(true)),
        ThumbnailAction::ProbeCommand("totem-video-thumbnailer".to_string())
    );
    assert_eq!(
        j.step(ThumbnailEvent::Completed(true)),
        ThumbnailAction::RunCommand(
            "totem-video-thumbnailer".to_string(),
            vec!["-s".to_string(), "256".to_string(), URI.to_string(), "/tmp/sapling-thumb-1.png".to_string()]
        )
    );
    assert_eq!(
        j.step(ThumbnailEvent::Completed(true)),
        ThumbnailAction::ReadFile(abs(&["tmp", "sapling-thumb-1.png"]))
    );
    let a = j.step(ThumbnailEvent::FileRead(true, Some(plain_png())));
    let bytes = match a {
        ThumbnailAction::WriteFile(p, b) => {
            assert_eq!(p, output);
            b
        }
        other => panic!("unexpected {:?}", other),
    };
    assert!(sapling::thumbnail::thumbnail_png_is_valid(&bytes, URI, 1234));
    assert_eq!(
        j.step(ThumbnailEvent::Completed(true)),
        ThumbnailAction::RemoveFile(abs(&["tmp", "sapling-thumb-1.png"]))
    );
    assert_eq!(j.step(ThumbnailEvent::Completed(true)), ThumbnailAction::Finish(Some(output)));
    assert_eq!(j.stage(), JobStage::Finished(JobOutcome::Generated));
}

#[test]
fn generation_falls_back_to_ffmpeg() {
    let (mut j, _) = job(false);
    to_generation(&mut j);
    j.step(ThumbnailEvent::Completed(true));
    j.step(ThumbnailEvent::Completed(true));
    let a = j.step(ThumbnailEvent::Completed(false));
    assert_eq!(a, ThumbnailAction::ProbeCommand("ffmpegthumbnailer".to_string()));
    let a = j.step(ThumbnailEvent::Completed(true));
    assert_eq!(
        a,
        ThumbnailAction::RunCommand(
            "ffmpegthumbnailer".to_string(),
            ["-i", "/videos/a.mp4", "-o", "/tmp/sapling-thumb-1.png", "-s", "256", "-t", "10%"]
                .iter()
                .map(|s| s.to_string())
                .collect()
        )
    );
}

#[test]
fn a_failed_generation_records_a_marker() {
    let base = abs(&["cache", "thumbnails"]);
    let marker_path = failed_thumbnail_path(&base, URI);
    let (mut j, _) = job(false);
    to_generation(&mut j);
    j.step(ThumbnailEvent::Completed(true));
    j.step(ThumbnailEvent::Completed(true));
    j.step(ThumbnailEvent::Completed(false));
    let a = j.step(ThumbnailEvent::Completed(false));
    assert_eq!(a, ThumbnailAction::RemoveFile(abs(&["tmp", "sapling-thumb-1.png"])));
    let a = j.step(ThumbnailEvent::Completed(true));
    assert_eq!(a, ThumbnailAction::CreateDirAll(abs(&["cache", "thumbnails", "fail", "gnome-thumbnail-factory"])));
    let a = j.step(ThumbnailEvent::Completed(true));
    assert_eq!(a, ThumbnailAction::WriteFile(marker_path, failure_marker(URI, 1234).unwrap()));
    assert_eq!(j.step(ThumbnailEvent::Completed(true)), ThumbnailAction::Finish(None));
}

fn indexed_png() -> Vec<u8> {
    let mut out = Vec::new();
    {
        let mut enc = png::Encoder::new(&mut out, 2, 1);
        enc.set_color(png::ColorType::Indexed);
        enc.set_depth(png::BitDepth::Eight);
        enc.set_palette(vec![0, 0, 0, 255, 255, 255]);
        let mut w = enc.write_header().unwrap();
        w.write_image_data(&[0, 1]).unwrap();
    }
    out
}

fn to_read_temp(j: &mut ThumbnailJob) {
    to_generation(j);
    j.step(ThumbnailEvent::Completed(true));
    j.step(ThumbnailEvent::Completed(true));
    j.step(ThumbnailEvent::Completed(true));
    j.step(ThumbnailEvent::Completed(true));
}

#[test]
fn a_thumbnail_that_cannot_be_encoded_is_written_as_far_as_it_went() {
    let base = abs(&["cache", "thumbnails"]);
    let (mut j, _) = job(false);
    to_read_temp(&mut j);
    let partial = match stored_thumbnail(&indexed_png(), URI, 1234) {
        Err(Some(p)) => p,
        other => panic!("unexpected {:?}", other),
    };
    let a = j.step(ThumbnailEvent::FileRead(true, Some(indexed_png())));
    assert_eq!(a, ThumbnailAction::WriteFile(thumbnail_cache_path(&base, URI, "normal"), partial));
    assert_eq!(j.stage(), JobStage::WritePartialOutput);
    let a = j.step(ThumbnailEvent::Completed(false));
    assert_eq!(a, ThumbnailAction::CreateDirAll(abs(&["cache", "thumbnails", "fail", "gnome-thumbnail-factory"])));
    let a = j.step(ThumbnailEvent::Completed(true));
    assert_eq!(a, ThumbnailAction::WriteFile(failed_thumbnail_path(&base, URI), failure_marker(URI, 1234).unwrap()));
    assert_eq!(j.step(ThumbnailEvent::Completed(false)), ThumbnailAction::Finish(None));
}

#[test]
fn an_unreadable_image_goes_straight_to_the_marker() {
    let (mut j, _) = job(false);
    to_read_temp(&mut j);
    let a = j.step(ThumbnailEvent::FileRead(true, Some(b"junk".to_vec())));
    assert_eq!(a, ThumbnailAction::CreateDirAll(abs(&["cache", "thumbnails", "fail", "gnome-thumbnail-factory"])));
    assert_eq!(j.step(ThumbnailEvent::Completed(false)), ThumbnailAction::Finish(None));
}

#[test]
fn the_next_job_finds_a_stored_thumbnail_with_its_first_read() {
    let output = thumbnail_cache_path(&abs(&["cache", "thumbnails"]), URI, "normal");
    let (mut j, _) = job(false);
    to_read_temp(&mut j);
    let bytes = match j.step(ThumbnailEvent::FileRead(true, Some(plain_png()))) {
        ThumbnailAction::WriteFile(_, b) => b,
        other => panic!("unexpected {:?}", other),
    };
    let (mut next, first) = job(false);
    assert_eq!(first, ThumbnailAction::ReadFile(output.clone()));
    assert_eq!(next.step(ThumbnailEvent::FileRead(true, Some(bytes))), ThumbnailAction::Finish(Some(output)));
    assert_eq!(next.stage(), JobStage::Finished(JobOutcome::Cached(0)));
}

#[test]
fn a_marker_for_another_time_does_not_stop_generation() {
    let (mut j, _) = job(false);
    for _ in 0..4 {
        j.step(missing());
    }
    let stale = failure_marker(URI, 1).unwrap();
    let a = j.step(ThumbnailEvent::FileRead(true, Some(stale)));
    assert_eq!(a, ThumbnailAction::CreateDirAll(abs(&["cache", "thumbnails", "normal"])));
    assert_eq!(j.stage(), JobStage::MakeOutputDir);
}

#[test]
fn no_uri_means_no_thumbnail() {
    let (j, a) = ThumbnailJob::start(
        abs(&["c"]),
        abs(&["v.mp4"]),
        Vec::new(),
        1,
        abs(&["tmp", "t.png"]),
        false,
    );
    assert_eq!(a, ThumbnailAction::Finish(None));
    assert_eq!(j.stage(), JobStage::Finished(JobOutcome::NoThumbnail));
}
