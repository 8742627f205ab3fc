use gliff::clipboard::jobs::Jobs;
use gliff::clipboard::msg::ClipboardFile;
use gliff::clipboard::progress::{
    describe, describe_files, describe_mime, human_bytes, Meter, Progress, State, CADENCE, QUIET,
};
use gliff::clipboard::sink::{ChunkSink, MemorySink};

/// Reports of a job that are due up to `now`.
fn due(jobs: &mut Jobs, id: u32, now: u64) -> Vec<Progress> {
    let mut out = Vec::new();
    while jobs.due(id).is_some_and(|at| at <= now) {
        out.extend(jobs.report(id, None));
    }
    out
}

#[test]
fn a_short_job_is_never_reported() {
    let mut jobs = Jobs::new();
    let id = jobs.run(0, "x".into(), Some(10));
    assert!(due(&mut jobs, id, 0).is_empty());
    jobs.add(id, 10);
    assert_eq!(jobs.finish(id, None), None);
    assert!(due(&mut jobs, id, QUIET * 2).is_empty());
}

#[test]
fn a_long_job_is_reported_then_finished() {
    let mut jobs = Jobs::new();
    let id = jobs.run(0, "image/png".into(), Some(100));
    let mut seen = Vec::new();
    for i in 1..=4u64 {
        seen.extend(due(&mut jobs, id, QUIET * i));
        jobs.add(id, 25);
    }
    seen.extend(jobs.finish(id, None));
    let first = &seen[0];
    assert_eq!(first.state, State::Running);
    assert_eq!(first.label, "image/png");
    let last = seen.iter().find(|p| p.is_final()).unwrap();
    assert_eq!(last.state, State::Done);
    assert_eq!(last.done, 100);
    assert_eq!(last.percent(), Some(100));
}

#[test]
fn a_failure_is_always_reported() {
    let mut jobs = Jobs::new();
    let id = jobs.run(0, "x".into(), None);
    let p = jobs.finish(id, Some("the peer aborted the transfer".into())).unwrap();
    assert!(matches!(p.state, State::Failed(_)), "{p:?}");
    assert_eq!(p.percent(), None);
}

#[test]
fn cancel_aborts_the_work_and_reports_it() {
    let mut jobs = Jobs::new();
    let id = jobs.run(0, "x".into(), Some(10));
    let p = due(&mut jobs, id, QUIET).remove(0);
    assert_eq!(p.state, State::Running);
    let p = jobs.cancel(id).unwrap();
    assert_eq!(p.state, State::Cancelled);
    assert_eq!(jobs.due(id), None);
    assert_eq!(jobs.finish(id, None), None);
    assert_eq!(jobs.cancel(id), None);
}

#[test]
fn metered_sink_counts_bytes() {
    let meter = Meter::default();
    let mut sink = meter.wrap(MemorySink::default());
    sink.write(b"hello").unwrap();
    sink.write(b"!").unwrap();
    assert_eq!(sink.meter.get(), 6);
    assert_eq!(sink.sink.bytes, b"hello!");
}

#[test]
fn a_file_set_is_named_by_its_top_level() {
    let f = |p: &str, size, dir| ClipboardFile { path: p.into(), size, dir };
    let one = [f("photos", 0, true), f("photos/a", 5, false)];
    assert_eq!(describe_files(&one), ("photos".into(), Some(5)));
    let two = [f("a", 1, false), f("b", 2, false)];
    assert_eq!(describe_files(&two), ("2 items".into(), Some(3)));
}

#[test]
fn an_item_is_named_by_its_kind() {
    assert_eq!(describe_mime("text/plain;charset=utf-8"), "text");
    assert_eq!(describe_mime("UTF8_STRING"), "text");
    assert_eq!(describe_mime("text/html"), "formatted text");
    assert_eq!(describe_mime("image/png"), "PNG image");
    assert_eq!(describe_mime("image/svg+xml"), "SVG image");
    assert_eq!(describe_mime("video/mp4"), "MP4 video");
    assert_eq!(describe_mime("application/octet-stream"), "binary data");
    assert_eq!(describe_mime("application/pdf"), "PDF");
    assert_eq!(describe_mime("application/x-foo"), "application/x-foo");
    assert_eq!(describe_mime("IMAGE/PNG"), "PNG image");
    assert_eq!(describe_mime("Text/HTML"), "formatted text");
    assert_eq!(describe_mime("text/"), "text/");
    assert_eq!(describe_mime("image/+xml"), "image/+xml");
}

#[test]
fn figures_are_short() {
    assert_eq!(human_bytes(512), "512 B");
    assert_eq!(human_bytes(1536), "1.5 KiB");
    assert_eq!(human_bytes(40 << 20), "40.0 MiB");
    let p = Progress {
        label: String::new(),
        done: 12 << 20,
        total: Some(40 << 20),
        rate: Some((3.1 * 1048576.0) as u64),
        state: State::Running,
    };
    assert_eq!(describe(&p), "12.0 MiB of 40.0 MiB, 3.1 MiB/s");
}

#[test]
fn figures_agree_with_floating_point() {
    let units = ["B", "KiB", "MiB", "GiB", "TiB"];
    let reference = |n: u64| {
        let (mut v, mut i) = (n as f64, 0);
        while v >= 1024.0 && i + 1 < units.len() {
            v /= 1024.0;
            i += 1;
        }
        if i == 0 {
            format!("{n} B")
        } else {
            format!("{v:.1} {}", units[i])
        }
    };
    let mut n: u64 = 1;
    for k in 0..4000u64 {
        n = n.wrapping_mul(6364136223846793005).wrapping_add(1442695040888963407);
        let v = n >> (k % 64);
        assert_eq!(human_bytes(v), reference(v), "{v}");
    }
    for v in [1023, 1024, 1075, 1076, 1077, 10188, (1 << 20) - 1, 1 << 20, u64::MAX] {
        assert_eq!(human_bytes(v), reference(v), "{v}");
    }
}

#[test]
fn reports_come_at_a_cadence() {
    let mut jobs = Jobs::new();
    let id = jobs.run(5, "x".into(), Some(200));
    assert_eq!(jobs.due(id), Some(5 + QUIET));
    let p = jobs.report(id, Some(7)).unwrap();
    assert_eq!((p.done, p.rate, p.percent()), (0, Some(7), Some(0)));
    assert_eq!(jobs.due(id), Some(5 + QUIET + CADENCE));
    jobs.add(id, 50);
    assert_eq!(jobs.report(id, None).unwrap().percent(), Some(25));
}
