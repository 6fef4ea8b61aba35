//! Choosing the rendering backend the compositor runs on.
use vstd::prelude::*;

verus! {

/// Type to represent available rendering backends
#[derive(Debug, Clone, Copy, PartialEq, Eq, Structural)]
pub enum Backend {
    Udev,
    Winit,
    X11,
    NoBackend,
}

/// A backend that can actually be started.
#[derive(Debug, Clone, Copy, PartialEq, Eq, Structural)]
pub enum BackendRunner {
    Udev,
    Winit,
    X11,
}

/// The runner that starts a given backend; `NoBackend` has none.
pub open spec fn runner_of(backend: Backend) -> Option<BackendRunner> {
    match backend {
        Backend::Udev => Some(BackendRunner::Udev),
        Backend::Winit => Some(BackendRunner::Winit),
        Backend::X11 => Some(BackendRunner::X11),
        Backend::NoBackend => None,
    }
}

impl Backend {
    /// Picks the runner that starts this backend. There is none for
    /// `NoBackend`: starting it is a fatal error ("No available backend was found.").
    pub fn to_unit(&self) -> (runner: BackendRunner)
        requires
            *self != Backend::NoBackend,
        ensures
            runner_of(*self) == Some(runner),
    {
        match self {
            Backend::Udev => BackendRunner::Udev,
            Backend::Winit => BackendRunner::Winit,
            Backend::X11 => BackendRunner::X11,
            Backend::NoBackend => {
                proof {
                    assert(false);
                }
                BackendRunner::Udev
            },
        }
    }
}

/// Runs the given backend: resolves it to the runner that the caller starts.
pub fn run_backend(backend: Backend) -> (runner: BackendRunner)
    requires
        backend != Backend::NoBackend,
    ensures
        runner_of(backend) == Some(runner),
{
    backend.to_unit()
}

/// Every backend but `NoBackend` has a runner, and the runner determines the backend:
/// `run_backend` and `to_unit`, which both return `runner_of(backend)`, start the same
/// runner for every backend, and both are refused exactly on `NoBackend`.
pub proof fn lemma_runner_exists(backend: Backend, other: Backend)
    ensures
        runner_of(backend) is None <==> backend == Backend::NoBackend,
        runner_of(Backend::Udev) == Some(BackendRunner::Udev),
        runner_of(Backend::Winit) == Some(BackendRunner::Winit),
        runner_of(Backend::X11) == Some(BackendRunner::X11),
        (runner_of(backend) is Some && runner_of(backend) == runner_of(other)) ==> backend == other,
{
}

/// The backend suggested for a session: a Wayland session (WAYLAND_DISPLAY set)
/// runs nested under winit, an X11 session (DISPLAY set) under X11, and otherwise
/// the udev backend is used whenever probing `/dev/dri/card0` did not fail.
pub open spec fn suggested_backend(wayland_display: bool, x11_display: bool, dri_probe_ok: bool) -> Backend {
    if wayland_display {
        Backend::Winit
    } else if x11_display {
        Backend::X11
    } else if dri_probe_ok {
        Backend::Udev
    } else {
        Backend::NoBackend
    }
}

/// Suggests the most useful backend from what the environment shows:
/// whether `WAYLAND_DISPLAY` is set, whether `DISPLAY` is set, and whether
/// the existence probe of `/dev/dri/card0` returned without an I/O error
/// (whatever its answer).
pub fn sugguest_useful_backend(wayland_display: bool, x11_display: bool, dri_probe_ok: bool) -> (backend: Backend)
    ensures
        backend == suggested_backend(wayland_display, x11_display, dri_probe_ok),
        wayland_display ==> backend == Backend::Winit,
        backend == Backend::X11 <==> (x11_display && !wayland_display),
        backend == Backend::Udev <==> (!wayland_display && !x11_display && dri_probe_ok),
        backend == Backend::NoBackend <==> (!wayland_display && !x11_display && !dri_probe_ok),
{
    if wayland_display {
        return Backend::Winit;
    }
    if x11_display {
        return Backend::X11;
    }
    if dri_probe_ok {
        return Backend::Udev;
    }
    Backend::NoBackend
}

/// Which session wins: whenever `WAYLAND_DISPLAY` is set the suggestion is winit,
/// whatever `DISPLAY` and the DRM probe say; X11 is suggested exactly when `DISPLAY` is
/// set and `WAYLAND_DISPLAY` is not; udev exactly when neither is set and the probe
/// answered.
pub proof fn lemma_suggestion_priority(wayland_display: bool, x11_display: bool, dri_probe_ok: bool)
    ensures
        wayland_display ==> suggested_backend(wayland_display, x11_display, dri_probe_ok) == Backend::Winit,
        suggested_backend(wayland_display, x11_display, dri_probe_ok) == Backend::Winit <==> wayland_display,
        suggested_backend(wayland_display, x11_display, dri_probe_ok) == Backend::X11 <==> (x11_display && !wayland_display),
        suggested_backend(wayland_display, x11_display, dri_probe_ok) == Backend::Udev
            <==> (!wayland_display && !x11_display && dri_probe_ok),
{
}

/// A suggested backend can always be run unless no session and no DRM device was found,
/// and a nested session always wins over the tty.
pub proof fn lemma_suggestion_runs(wayland_display: bool, x11_display: bool, dri_probe_ok: bool)
    ensures
        (suggested_backend(wayland_display, x11_display, dri_probe_ok) == Backend::NoBackend)
            <==> (!wayland_display && !x11_display && !dri_probe_ok),
        (wayland_display || x11_display) ==> suggested_backend(wayland_display, x11_display, dri_probe_ok) != Backend::Udev,
{
}

} // verus!
