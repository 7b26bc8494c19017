use sokutex::compiler::{compile_internal, Compiler};
use sokutex::compiler_daemon::{CompileRequest, CompilerDaemon, DaemonAction};
use sokutex::config::CompileBackend;
use sokutex::debounce::Debouncer;
use sokutex::latexmk::{classify_line, LatexmkEvent};
use sokutex::vfs::Vfs;

#[test]
fn internal_backend_embeds_leading_lines() {
    let out = compile_internal("hi");
    let text = String::from_utf8(out).unwrap();
    assert!(text.starts_with("%PDF-1.4\n"));
    assert!(text.contains("<</Length 23>> stream\nBT /F1 10 Td (hi) Tj ET\nendstream"));
    let escaped = String::from_utf8(compile_internal("a(b)c")).unwrap();
    assert!(escaped.contains("BT /F1 10 Td (a\\(b\\)c) Tj ET"));
}

#[test]
fn compile_twice_returns_identical_bytes() {
    let vfs = Vfs::new();
    let mut c = Compiler::new();
    let first = c.compile("plain text", false, false, &vfs).unwrap();
    let second = c.compile("plain text", false, false, &vfs).unwrap();
    // The second call is answered from the cache: identical bytes, one build.
    assert_eq!(first, second);
    assert_eq!(first, compile_internal("plain text"));
}

#[test]
fn engine_backends_are_refused_by_direct_compile() {
    let vfs = Vfs::new();
    let mut c = Compiler::new();
    c.set_backend(CompileBackend::Latexmk);
    let err = c.compile("x", false, false, &vfs).unwrap_err();
    assert!(err.message.contains("asynchronously"));
    c.set_backend(CompileBackend::Tectonic);
    assert!(c.compile("x", false, false, &vfs).is_err());
}

#[test]
fn latexmk_lines_are_classified() {
    assert_eq!(
        classify_line("Latexmk: All targets (main.pdf) are up-to-date"),
        Some(LatexmkEvent::BuildFinished(true))
    );
    assert_eq!(
        classify_line("Latexmk: Run number 1 of rule 'pdflatex'"),
        Some(LatexmkEvent::BuildStarted)
    );
    assert_eq!(
        classify_line("Latexmk: Errors during processing, so I did not complete"),
        Some(LatexmkEvent::BuildFinished(false))
    );
    assert_eq!(classify_line("This is pdfTeX"), None);
}

fn request(latex: &str, backend: CompileBackend) -> CompileRequest {
    CompileRequest::Compile {
        latex: latex.to_string(),
        backend,
        draft: false,
        focus_mode: false,
        active_file: None,
    }
}

#[test]
fn daemon_replies_for_internal_and_tracks_revision() {
    let vfs = Vfs::new();
    let mut daemon = CompilerDaemon::new(false);
    let act = daemon.handle_request(request("one", CompileBackend::Internal), &vfs);
    let rev1 = match act {
        DaemonAction::Reply(res) => {
            assert!(!res.pdf.is_empty());
            res.revision
        }
        _ => panic!("expected an immediate reply"),
    };
    assert_eq!(rev1, 1);
    // Identical output keeps the revision; new output bumps it by one.
    let act = daemon.handle_request(request("one", CompileBackend::Internal), &vfs);
    match act {
        DaemonAction::Reply(res) => assert_eq!(res.revision, 1),
        _ => panic!("expected an immediate reply"),
    }
    let act = daemon.handle_request(request("two", CompileBackend::Internal), &vfs);
    match act {
        DaemonAction::Reply(res) => assert_eq!(res.revision, 2),
        _ => panic!("expected an immediate reply"),
    }
}

#[test]
fn daemon_draft_coerces_to_internal() {
    let vfs = Vfs::new();
    let mut daemon = CompilerDaemon::new(true);
    let act = daemon.handle_request(
        CompileRequest::Compile {
            latex: "x".to_string(),
            backend: CompileBackend::Latexmk,
            draft: true,
            focus_mode: false,
            active_file: None,
        },
        &vfs,
    );
    assert!(matches!(act, DaemonAction::Reply(_)));
}

#[test]
fn daemon_falls_back_when_external_process_is_unavailable() {
    let vfs = Vfs::new();
    let mut daemon = CompilerDaemon::new(false);
    let act = daemon.handle_request(request("y", CompileBackend::Latexmk), &vfs);
    match act {
        DaemonAction::Reply(res) => assert_eq!(res.pdf, compile_internal("y")),
        _ => panic!("expected the in-process fallback to reply"),
    }
}

#[test]
fn daemon_external_flow_parks_queues_and_deduplicates_output() {
    let vfs = Vfs::new();
    let mut daemon = CompilerDaemon::new(true);
    let act = daemon.handle_request(request("doc v1", CompileBackend::Latexmk), &vfs);
    assert!(matches!(act, DaemonAction::WriteAndTrigger { .. }));
    // A second request while a build is in flight waits, it is not dropped.
    let act = daemon.handle_request(request("doc v2", CompileBackend::Latexmk), &vfs);
    assert!(matches!(act, DaemonAction::Wait));
    // The build finishes; the parked caller resolves and the queued request
    // comes back for servicing.
    let (res, queued) = daemon.external_build_finished(b"PDFBYTES".to_vec(), None);
    let res = res.unwrap();
    assert_eq!(res.revision, 1);
    assert_eq!(res.pdf, b"PDFBYTES".to_vec());
    let queued = queued.unwrap();
    let act = daemon.handle_request(queued, &vfs);
    assert!(matches!(act, DaemonAction::WriteAndTrigger { .. }));
    // Byte-identical output does not move the revision.
    let (res, _) = daemon.external_build_finished(b"PDFBYTES".to_vec(), None);
    assert_eq!(res.unwrap().revision, 1);
    // Different output moves it by exactly one.
    let act = daemon.handle_request(request("doc v3", CompileBackend::Latexmk), &vfs);
    assert!(matches!(act, DaemonAction::WriteAndTrigger { .. }));
    let (res, _) = daemon.external_build_finished(b"OTHER".to_vec(), Some(b"sync".to_vec()));
    let res = res.unwrap();
    assert_eq!(res.revision, 2);
    assert_eq!(res.synctex_data, Some(b"sync".to_vec()));
}

#[test]
fn daemon_failed_build_leaves_caller_unresolved() {
    let vfs = Vfs::new();
    let mut daemon = CompilerDaemon::new(true);
    let act = daemon.handle_request(request("doc", CompileBackend::Latexmk), &vfs);
    assert!(matches!(act, DaemonAction::WriteAndTrigger { .. }));
    let queued = daemon.external_build_failed();
    assert!(queued.is_none());
    // The next successful flow still works.
    let act = daemon.handle_request(request("doc", CompileBackend::Latexmk), &vfs);
    assert!(matches!(act, DaemonAction::WriteAndTrigger { .. }));
}

#[test]
fn engine_result_is_cached_only_on_success() {
    let vfs = Vfs::new();
    let mut daemon = CompilerDaemon::new(true);
    let act = daemon.handle_request(request("engine doc", CompileBackend::Tectonic), &vfs);
    let key = match act {
        DaemonAction::RunEngine { key, source } => {
            assert!(source.contains("engine doc"));
            key
        }
        _ => panic!("expected an engine plan"),
    };
    let res = daemon
        .engine_result(key, Ok(b"ENGINE OUTPUT".to_vec()))
        .unwrap();
    assert_eq!(res.revision, 1);
    // The same request now hits the cache and replies at once.
    let act = daemon.handle_request(request("engine doc", CompileBackend::Tectonic), &vfs);
    match act {
        DaemonAction::Reply(res) => assert_eq!(res.pdf, b"ENGINE OUTPUT".to_vec()),
        _ => panic!("expected a cached reply"),
    }
}

fn tuple(latex: &str) -> CompileRequest {
    request(latex, CompileBackend::Internal)
}

fn latex_of(req: CompileRequest) -> String {
    match req {
        CompileRequest::Compile { latex, .. } => latex,
    }
}

#[test]
fn debouncer_coalesces_a_burst_into_one_trailing_forward() {
    let mut d = Debouncer::new(150);
    // Prime the leading edge so the burst falls inside the window.
    assert!(d.on_input(tuple("t0"), 0).is_some());
    // Ten tuples within 20 ms: none is forwarded on arrival.
    let mut forwarded = 0;
    for i in 0..10u64 {
        if d.on_input(tuple(&format!("burst{}", i)), 2 + 2 * i).is_some() {
            forwarded += 1;
        }
    }
    assert_eq!(forwarded, 0);
    // The window elapses: exactly one attempt goes out, carrying the last
    // of the ten tuples.
    let out = d.on_timer(171).expect("the held tuple must be forwarded");
    assert_eq!(latex_of(out), "burst9");
    assert!(d.on_timer(172).is_none());
}

#[test]
fn debouncer_leading_edge_fires_immediately_after_idle() {
    let mut d = Debouncer::new(150);
    let out = d.on_input(tuple("first"), 1000);
    assert_eq!(latex_of(out.unwrap()), "first");
    // Another input long after the window forwards immediately again.
    let out = d.on_input(tuple("later"), 2000);
    assert_eq!(latex_of(out.unwrap()), "later");
}
