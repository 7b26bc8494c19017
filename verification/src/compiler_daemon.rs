//! The coordinating daemon: a single-owner state machine over the compile
//! cache, the backend selection, the pending-response slot for the external
//! build process, the revision counter and the last returned output hash.
//! Each entry point consumes one event and yields the action its
//! surroundings must perform; the surroundings own the channels, the clock
//! and the process.

use vstd::prelude::*;
use crate::vfs::Vfs;
use crate::config::CompileBackend;
use crate::config::spec_backend_tag;
use crate::compiler::Compiler;
use crate::compiler::spec_optimize;
use crate::compiler::spec_dispatch_internal;
use crate::compiler::opt_view;
use crate::hashing::spec_content_hash;
use crate::hashing::spec_source_key;
use crate::hashing::content_hash;

verus! {

/// A finished compile: the output, the revision it carries, and the
/// position-mapping artifact where the build produced one.
pub struct CompileResult {
    pub pdf: Vec<u8>,
    pub revision: u64,
    pub synctex_data: Option<Vec<u8>>,
}

/// A compile intent, as the editor submits it.
pub enum CompileRequest {
    Compile {
        latex: String,
        backend: CompileBackend,
        draft: bool,
        focus_mode: bool,
        active_file: Option<String>,
    },
}

/// What the daemon asks its surroundings to do after an event: reply to the
/// caller at once; run the embedded engine on a rewritten source and report
/// back under the given key; write the rewritten source to the watched
/// target and trigger the external process, parking the caller's response;
/// hold the caller until the in-flight external build resolves; or drop the
/// request so the caller observes a cancellation.
pub enum DaemonAction {
    Reply(CompileResult),
    RunEngine { key: u64, source: String },
    WriteAndTrigger { source: String },
    Wait,
    Drop,
}

/// How the revision counter and last-output hash move for an output hash:
/// the counter steps by exactly one when the hash differs from the previous
/// output's, and stands still otherwise.
pub open spec fn spec_update_revision(revision: u64, last_hash: u64, h: u64) -> (u64, u64) {
    if h != last_hash {
        ((revision + 1) as u64, h)
    } else {
        (revision, last_hash)
    }
}

/// The revision does not increase for output byte-identical to the previous
/// build (its hash is the previous hash), and increases by exactly 1 when
/// the output's hash differs.
pub proof fn lemma_revision_bumps_iff_output_changed(revision: u64, last_hash: u64, out: Seq<u8>)
    requires
        revision < u64::MAX,
    ensures
        ({
            let u = spec_update_revision(revision, last_hash, spec_content_hash(out));
            (spec_content_hash(out) == last_hash ==> u.0 == revision) && (spec_content_hash(out)
                != last_hash ==> u.0 == revision + 1)
        }),
{
}

/// The effective backend of a request: draft mode silently coerces any
/// selection to the in-process backend.
pub open spec fn spec_effective_backend(backend: CompileBackend, draft: bool) -> CompileBackend {
    if draft {
        CompileBackend::Internal
    } else {
        backend
    }
}

pub struct CompilerDaemon {
    latexmk_available: bool,
    pending: bool,
    queued: Option<CompileRequest>,
    compiler: Compiler,
    revision: u64,
    last_pdf_hash: u64,
    last_build_failed: bool,
}

impl CompilerDaemon {
    pub closed spec fn spec_revision(&self) -> u64 {
        self.revision
    }

    pub closed spec fn spec_last_hash(&self) -> u64 {
        self.last_pdf_hash
    }

    pub closed spec fn spec_pending(&self) -> bool {
        self.pending
    }

    pub closed spec fn spec_queued(&self) -> Option<CompileRequest> {
        self.queued
    }

    pub closed spec fn spec_available(&self) -> bool {
        self.latexmk_available
    }

    pub closed spec fn spec_failed(&self) -> bool {
        self.last_build_failed
    }

    pub closed spec fn spec_compiler(&self) -> Compiler {
        self.compiler
    }

    /// A request waits in the queue only while an external build is in
    /// flight.
    pub open spec fn wf(&self) -> bool {
        self.spec_queued() is Some ==> self.spec_pending()
    }

    /// A fresh daemon: revision zero, nothing pending or queued, no failure
    /// recorded, and a fresh compiler. `latexmk_available` says whether the
    /// external build process could be started; when it could not, requests
    /// that target it fall back to the in-process backend for the session.
    pub fn new(latexmk_available: bool) -> (r: Self)
        ensures
            r.spec_revision() == 0,
            r.spec_last_hash() == 0,
            !r.spec_pending(),
            r.spec_queued() is None,
            r.spec_available() == latexmk_available,
            !r.spec_failed(),
            r.spec_compiler().spec_cache() == Map::<u64, Seq<u8>>::empty(),
            r.spec_compiler().spec_hashes() == Map::<Seq<char>, u64>::empty(),
            r.wf(),
    {
        CompilerDaemon {
            latexmk_available,
            pending: false,
            queued: None,
            compiler: Compiler::new(),
            revision: 0,
            last_pdf_hash: 0,
            last_build_failed: false,
        }
    }

    /// Builds the result for an output, bumping the revision exactly when
    /// the output's hash differs from the last returned one.
    fn make_result(&mut self, pdf: Vec<u8>, synctex: Option<Vec<u8>>) -> (r: CompileResult)
        requires
            old(self).spec_revision() < u64::MAX,
        ensures
            ({
                let u = spec_update_revision(
                    old(self).spec_revision(),
                    old(self).spec_last_hash(),
                    spec_content_hash(pdf@),
                );
                final(self).spec_revision() == u.0 && final(self).spec_last_hash() == u.1
            }),
            r.pdf@ == pdf@,
            r.revision == final(self).spec_revision(),
            r.synctex_data == synctex,
            final(self).spec_pending() == old(self).spec_pending(),
            final(self).spec_queued() == old(self).spec_queued(),
            final(self).spec_available() == old(self).spec_available(),
            final(self).spec_failed() == old(self).spec_failed(),
            final(self).spec_compiler() == old(self).spec_compiler(),
    {
        let h = content_hash(&pdf);
        if h != self.last_pdf_hash {
            self.revision = self.revision + 1;
            self.last_pdf_hash = h;
        }
        CompileResult { pdf, revision: self.revision, synctex_data: synctex }
    }

    /// Services one compile request: runs the optimizer under the effective
    /// backend, replies at once for the in-process backend (and for the
    /// external backend when the process is unavailable, the recorded
    /// degrade-rather-than-crash fallback), consults the cache and hands an
    /// engine plan back for the embedded engine, and for the external
    /// process either dispatches a write-and-trigger, or holds the request
    /// while a build is in flight.
    pub fn handle_request(&mut self, request: CompileRequest, vfs: &Vfs) -> (r: DaemonAction)
        requires
            vfs.wf(),
            old(self).spec_revision() < u64::MAX,
            old(self).wf(),
        ensures
            final(self).wf(),
            final(self).spec_available() == old(self).spec_available(),
            ({
                let req = request;
                match req {
                    CompileRequest::Compile { latex, backend, draft, focus_mode, active_file } => {
                        let eff = spec_effective_backend(backend, draft);
                        let o = spec_optimize(
                            old(self).spec_compiler().spec_hashes(),
                            vfs@,
                            latex@,
                            draft,
                            focus_mode,
                            opt_view(active_file),
                        );
                        final(self).spec_compiler().spec_backend() == eff && match eff {
                            CompileBackend::Internal => {
                                let d = spec_dispatch_internal(
                                    old(self).spec_compiler().spec_cache(),
                                    o.0,
                                );
                                let u = spec_update_revision(
                                    old(self).spec_revision(),
                                    old(self).spec_last_hash(),
                                    spec_content_hash(d.1),
                                );
                                final(self).spec_compiler().spec_hashes() == o.3 && final(self).spec_compiler().spec_cache() == d.0 && final(self).spec_revision() == u.0 && final(self).spec_pending() == old(self).spec_pending() && (r matches DaemonAction::Reply(res)
                                    && res.pdf@ == d.1 && res.revision == u.0)
                            },
                            CompileBackend::Tectonic => {
                                let key = spec_source_key(
                                    o.0,
                                    spec_backend_tag(CompileBackend::Tectonic),
                                );
                                final(self).spec_compiler().spec_hashes() == o.3 && if old(self).spec_compiler().spec_cache().dom().contains(key) {
                                    let u = spec_update_revision(
                                        old(self).spec_revision(),
                                        old(self).spec_last_hash(),
                                        spec_content_hash(
                                            old(self).spec_compiler().spec_cache()[key],
                                        ),
                                    );
                                    (r matches DaemonAction::Reply(res) && res.pdf@ == old(self).spec_compiler().spec_cache()[key] && res.revision == u.0) && final(self).spec_revision() == u.0
                                } else {
                                    (r matches DaemonAction::RunEngine { key: k, source } && k
                                        == key && source@ == o.0) && final(self).spec_pending()
                                        == old(self).spec_pending() && final(self).spec_revision()
                                        == old(self).spec_revision()
                                }
                            },
                            CompileBackend::Latexmk => {
                                if old(self).spec_available() {
                                    if old(self).spec_pending() {
                                        r is Wait && final(self).spec_queued() == Some(req)
                                            && final(self).spec_pending() && final(self).spec_compiler().spec_hashes() == old(self).spec_compiler().spec_hashes()
                                    } else {
                                        (r matches DaemonAction::WriteAndTrigger { source }
                                            && source@ == o.0) && final(self).spec_pending()
                                            && final(self).spec_compiler().spec_hashes() == o.3
                                    }
                                } else {
                                    let d = spec_dispatch_internal(
                                        old(self).spec_compiler().spec_cache(),
                                        o.0,
                                    );
                                    final(self).spec_compiler().spec_hashes() == o.3 && final(self).spec_compiler().spec_cache() == d.0 && (
                                    r matches DaemonAction::Reply(res) && res.pdf@ == d.1)
                                }
                            },
                        }
                    },
                }
            }),
    {
        let ghost req = request;
        let CompileRequest::Compile { latex, backend, draft, focus_mode, active_file } = request;
        let eff = if draft {
            CompileBackend::Internal
        } else {
            backend
        };
        self.compiler.set_backend(eff);
        self.compiler.set_active_file(
            match &active_file {
                Some(a) => Some(a.clone()),
                None => None,
            },
        );
        proof {
            assert(self.compiler.spec_active() == opt_view(active_file));
        }
        match eff {
            CompileBackend::Internal => {
                match self.compiler.compile(latex.as_str(), draft, focus_mode, vfs) {
                    Ok(pdf) => {
                        let res = self.make_result(pdf, None);
                        DaemonAction::Reply(res)
                    },
                    Err(_) => {
                        // The in-process backend always succeeds.
                        assert(false);
                        DaemonAction::Drop
                    },
                }
            },
            CompileBackend::Tectonic => {
                let (source, key, cached) = self.compiler.prepare_engine_compile(
                    latex.as_str(),
                    draft,
                    focus_mode,
                    vfs,
                );
                match cached {
                    Some(pdf) => {
                        let res = self.make_result(pdf, None);
                        DaemonAction::Reply(res)
                    },
                    None => DaemonAction::RunEngine { key, source },
                }
            },
            CompileBackend::Latexmk => {
                if self.latexmk_available {
                    if self.pending {
                        self.queued = Some(
                            CompileRequest::Compile { latex, backend, draft, focus_mode, active_file },
                        );
                        proof {
                            assert(self.queued == Some(req));
                        }
                        DaemonAction::Wait
                    } else {
                        let (source, _incremental, _deltas) = self.compiler.optimize_latex(
                            latex.as_str(),
                            draft,
                            focus_mode,
                            vfs,
                        );
                        self.pending = true;
                        DaemonAction::WriteAndTrigger { source }
                    }
                } else {
                    // Degrade rather than crash: the process could not be
                    // started, so the in-process backend answers.
                    let (source, _incremental, _deltas) = self.compiler.optimize_latex(
                        latex.as_str(),
                        draft,
                        focus_mode,
                        vfs,
                    );
                    let pdf = self.run_fallback(&source);
                    let res = self.make_result(pdf, None);
                    DaemonAction::Reply(res)
                }
            },
        }
    }

    /// The unavailable-backend fallback: the in-process backend through the
    /// cache.
    fn run_fallback(&mut self, source: &String) -> (r: Vec<u8>)
        ensures
            ({
                let d = spec_dispatch_internal(old(self).spec_compiler().spec_cache(), source@);
                final(self).spec_compiler().spec_cache() == d.0 && r@ == d.1
            }),
            final(self).spec_compiler().spec_hashes() == old(self).spec_compiler().spec_hashes(),
            final(self).spec_compiler().spec_backend() == old(self).spec_compiler().spec_backend(),
            final(self).spec_revision() == old(self).spec_revision(),
            final(self).spec_last_hash() == old(self).spec_last_hash(),
            final(self).spec_pending() == old(self).spec_pending(),
            final(self).spec_queued() == old(self).spec_queued(),
            final(self).spec_available() == old(self).spec_available(),
            final(self).spec_failed() == old(self).spec_failed(),
    {
        self.compiler.run_internal_cached(source)
    }

    /// An engine run reported back: a success is stored in the cache and
    /// becomes the caller's reply with the revision rule applied; a failure
    /// is not cached and the request resolves to the error.
    pub fn engine_result(
        &mut self,
        key: u64,
        outcome: Result<Vec<u8>, crate::compiler::CompileError>,
    ) -> (r: Option<CompileResult>)
        requires
            old(self).spec_revision() < u64::MAX,
            old(self).wf(),
        ensures
            final(self).wf(),
            match outcome {
                Ok(pdf) => {
                    let u = spec_update_revision(
                        old(self).spec_revision(),
                        old(self).spec_last_hash(),
                        spec_content_hash(pdf@),
                    );
                    final(self).spec_compiler().spec_cache() == old(self).spec_compiler().spec_cache().insert(key, pdf@) && final(self).spec_revision()
                        == u.0 && (r matches Some(res) && res.pdf@ == pdf@ && res.revision == u.0)
                },
                Err(_) => r is None && final(self).spec_compiler().spec_cache() == old(self).spec_compiler().spec_cache() && final(self).spec_revision() == old(self).spec_revision(),
            },
            final(self).spec_pending() == old(self).spec_pending(),
            final(self).spec_queued() == old(self).spec_queued(),
            final(self).spec_available() == old(self).spec_available(),
    {
        match outcome {
            Ok(pdf) => {
                self.compiler.store_engine_result(key, &pdf);
                let res = self.make_result(pdf, None);
                Some(res)
            },
            Err(_) => None,
        }
    }

    /// The external process finished a build successfully and its artifacts
    /// were read back: the parked caller's reply is built under the
    /// revision rule, and any queued request is handed back to be serviced
    /// next. Without a parked caller the artifacts are dropped.
    pub fn external_build_finished(&mut self, pdf: Vec<u8>, synctex: Option<Vec<u8>>) -> (r: (
        Option<CompileResult>,
        Option<CompileRequest>,
    ))
        requires
            old(self).spec_revision() < u64::MAX,
            old(self).wf(),
        ensures
            final(self).wf(),
            !final(self).spec_pending(),
            final(self).spec_queued() is None,
            !final(self).spec_failed(),
            r.1 == old(self).spec_queued(),
            if old(self).spec_pending() {
                let u = spec_update_revision(
                    old(self).spec_revision(),
                    old(self).spec_last_hash(),
                    spec_content_hash(pdf@),
                );
                final(self).spec_revision() == u.0 && final(self).spec_last_hash() == u.1 && (
                r.0 matches Some(res) && res.pdf@ == pdf@ && res.revision == u.0 && res.synctex_data
                    == synctex)
            } else {
                r.0 is None && final(self).spec_revision() == old(self).spec_revision()
            },
            final(self).spec_available() == old(self).spec_available(),
            final(self).spec_compiler() == old(self).spec_compiler(),
    {
        self.last_build_failed = false;
        let queued = self.queued.take();
        if self.pending {
            self.pending = false;
            let res = self.make_result(pdf, synctex);
            (Some(res), queued)
        } else {
            self.pending = false;
            (None, queued)
        }
    }

    /// The external process finished a build with errors: the parked
    /// caller is left unresolved (it observes a cancellation), the failure
    /// is recorded, and any queued request is handed back.
    pub fn external_build_failed(&mut self) -> (r: Option<CompileRequest>)
        requires
            old(self).wf(),
        ensures
            final(self).wf(),
            !final(self).spec_pending(),
            final(self).spec_queued() is None,
            final(self).spec_failed(),
            r == old(self).spec_queued(),
            final(self).spec_revision() == old(self).spec_revision(),
            final(self).spec_last_hash() == old(self).spec_last_hash(),
            final(self).spec_available() == old(self).spec_available(),
            final(self).spec_compiler() == old(self).spec_compiler(),
    {
        self.last_build_failed = true;
        self.pending = false;
        self.queued.take()
    }
}

} // verus!
