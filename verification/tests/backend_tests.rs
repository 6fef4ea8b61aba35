use yawc::backend::{run_backend, sugguest_useful_backend, Backend, BackendRunner};

#[test]
fn suggestion_priority() {
    assert_eq!(sugguest_useful_backend(true, true, true), Backend::Winit);
    assert_eq!(sugguest_useful_backend(false, true, true), Backend::X11);
    assert_eq!(sugguest_useful_backend(false, false, true), Backend::Udev);
    assert_eq!(sugguest_useful_backend(false, false, false), Backend::NoBackend);
}

#[test]
fn runners() {
    assert_eq!(Backend::Udev.to_unit(), BackendRunner::Udev);
    assert_eq!(Backend::Winit.to_unit(), BackendRunner::Winit);
    assert_eq!(run_backend(Backend::X11), BackendRunner::X11);
}

#[test]
fn running_a_backend_starts_its_runner() {
    for b in [Backend::Udev, Backend::Winit, Backend::X11] {
        assert_eq!(run_backend(b), b.to_unit());
    }
}
