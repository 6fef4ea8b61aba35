//! The decisions of the udev (DRM) backend: which device node to open, which connector
//! and CRTC drive the output, and which display mode to use.
use vstd::prelude::*;
use crate::config::joined_path;

verus! {

/// The device path a GPU override names: an absolute path as given, a bare card name
/// such as `card1` under `/dev/dri`, anything else as given.
pub open spec fn gpu_path_text(name: Seq<char>) -> Seq<char> {
    if name.len() > 0 && name[0] == '/' {
        name
    } else if is_card_name(name) {
        joined_path("/dev/dri"@, name)
    } else {
        name
    }
}

/// The device path a GPU override names (see `gpu_path_text`).
pub fn normalize_gpu_path(name: &str) -> (p: String)
    ensures
        p@ == gpu_path_text(name@),
{
    proof {
        reveal_strlit("card");
        reveal_strlit("/dev/dri");
    }
    let n = name.unicode_len();
    if n > 0 && name.get_char(0) == '/' {
        return String::from_str(name);
    }
    if n >= 4 && crate::text::str_eq(name.substring_char(0, 4), "card") {
        return crate::config::join_relative("/dev/dri", name);
    }
    String::from_str(name)
}

/// Whether a name begins with `card`, as DRM card nodes are named.
pub open spec fn is_card_name(name: Seq<char>) -> bool {
    name.len() >= 4 && name.take(4) == "card"@
}

/// A GPU override names a device path: an absolute path is kept as it is; a name that
/// starts with the four letters `card` is taken as a node of `/dev/dri`; any other name
/// is kept as it is. Card nodes are exactly the names whose first four characters are
/// `c`, `a`, `r`, `d`.
pub proof fn lemma_gpu_path(name: Seq<char>)
    ensures
        is_card_name(name) <==> (name.len() >= 4 && name[0] == 'c' && name[1] == 'a' && name[2] == 'r' && name[3] == 'd'),
        name.len() > 0 && name[0] == '/' ==> gpu_path_text(name) == name,
        is_card_name(name) ==> gpu_path_text(name) == "/dev/dri/"@ + name,
        !(name.len() > 0 && name[0] == '/') && !is_card_name(name) ==> gpu_path_text(name) == name,
{
    reveal_strlit("card");
    reveal_strlit("/dev/dri");
    reveal_strlit("/dev/dri/");
    reveal_strlit("/");
    if name.len() >= 4 && name[0] == 'c' && name[1] == 'a' && name[2] == 'r' && name[3] == 'd' {
        assert(name.take(4) =~= "card"@);
    }
    if is_card_name(name) {
        let c = "card"@;
        assert(c[0] == 'c' && c[1] == 'a' && c[2] == 'r' && c[3] == 'd');
        assert(name.take(4)[0] == name[0] && name.take(4)[1] == name[1]);
        assert(name.take(4)[2] == name[2] && name.take(4)[3] == name[3]);
        assert("/dev/dri"@ + "/"@ + name =~= "/dev/dri/"@ + name);
    }
}

/// Whether a name begins with `card`.
fn starts_with_card(name: &str) -> (r: bool)
    ensures
        r == is_card_name(name@),
{
    proof {
        reveal_strlit("card");
    }
    name.unicode_len() >= 4 && crate::text::str_eq(name.substring_char(0, 4), "card")
}

/// Whether a `/dev/dri` entry is tried as a further device: a card node other than the
/// primary device.
pub open spec fn is_further_card(name: Seq<char>, is_primary: bool) -> bool {
    is_card_name(name) && !is_primary
}

/// The next `/dev/dri` entry to try for a connector, from position `from` on: none once
/// a connector has been found, else the first further card node (see `is_further_card`).
/// `names[i]` is the entry's file name and `is_primary[i]` tells whether it is the
/// primary device.
pub fn next_device_to_try(names: &Vec<String>, is_primary: &Vec<bool>, from: usize, found: bool) -> (r: Option<usize>)
    requires
        names@.len() == is_primary@.len(),
    ensures
        found ==> r is None,
        !found ==> match r {
            Some(i) => from <= i < names@.len() && is_further_card(names@[i as int]@, is_primary@[i as int])
                && forall|j: int| from <= j < i ==> !is_further_card(#[trigger] names@[j]@, is_primary@[j]),
            None => forall|j: int| from <= j < names@.len() ==> !is_further_card(#[trigger] names@[j]@, is_primary@[j]),
        },
{
    if found {
        return None;
    }
    let n = names.len();
    let mut i: usize = from;
    while i < n
        invariant
            n == names@.len(),
            n == is_primary@.len(),
            !found,
            from <= i,
            forall|j: int| from <= j < i ==> !is_further_card(#[trigger] names@[j]@, is_primary@[j]),
        decreases n - i,
    {
        if starts_with_card(names[i].as_str()) && !is_primary[i] {
            return Some(i);
        }
        i = i + 1;
    }
    None
}

/// The first scanned connector that is connected to a CRTC: `crtc_found[i]` tells
/// whether the scanner reported the `i`-th connector connected with a CRTC.
pub fn first_scanned_with_crtc(crtc_found: &Vec<bool>) -> (r: Option<usize>)
    ensures
        match r {
            Some(i) => i < crtc_found@.len() && crtc_found@[i as int]
                && forall|j: int| 0 <= j < i ==> !crtc_found@[j],
            None => forall|j: int| 0 <= j < crtc_found@.len() ==> !crtc_found@[j],
        },
{
    let n = crtc_found.len();
    let mut i: usize = 0;
    while i < n
        invariant
            n == crtc_found@.len(),
            i <= n,
            forall|j: int| 0 <= j < i ==> !crtc_found@[j],
        decreases n - i,
    {
        if crtc_found[i] {
            return Some(i);
        }
        i = i + 1;
    }
    None
}

/// What probing one connector of a device found: whether it could be read and is
/// connected, whether its current encoder resolves to a CRTC, and for each of its
/// encoders in order whether that encoder resolves to a CRTC.
#[derive(Debug)]
pub struct ConnectorProbe {
    pub connected: bool,
    pub current_has_crtc: bool,
    pub encoders_with_crtc: Vec<bool>,
}

/// Where the CRTC for a connector comes from.
#[derive(Debug, Clone, Copy, PartialEq, Eq, Structural)]
pub enum CrtcSource {
    /// The connector's current encoder.
    Current,
    /// The encoder at this position in the connector's encoder list.
    Encoder(usize),
}

/// The first encoder in the list that resolves to a CRTC.
pub open spec fn first_true(v: Seq<bool>) -> Option<int> {
    if exists|j: int| 0 <= j < v.len() && v[j] {
        Some(choose|j: int| 0 <= j < v.len() && v[j] && forall|k: int| 0 <= k < j ==> !v[k])
    } else {
        None
    }
}

/// Whether a probed connector can drive the output: connected, with its current
/// encoder or one of its encoders resolving to a CRTC.
pub open spec fn usable(p: ConnectorProbe) -> bool {
    p.connected && (p.current_has_crtc || exists|j: int| 0 <= j < p.encoders_with_crtc@.len() && p.encoders_with_crtc@[j])
}

/// The CRTC source a usable connector is driven through: its current encoder when that
/// resolves, else the first encoder of its list that does.
pub open spec fn preferred_source(p: ConnectorProbe, source: CrtcSource) -> bool {
    if p.current_has_crtc {
        source == CrtcSource::Current
    } else {
        match source {
            CrtcSource::Current => false,
            CrtcSource::Encoder(j) => j < p.encoders_with_crtc@.len() && p.encoders_with_crtc@[j as int]
                && forall|k: int| 0 <= k < j ==> !p.encoders_with_crtc@[k],
        }
    }
}

/// The first usable encoder of a list, if any.
fn first_encoder_with_crtc(encoders: &Vec<bool>) -> (r: Option<usize>)
    ensures
        match r {
            Some(j) => j < encoders@.len() && encoders@[j as int]
                && forall|k: int| 0 <= k < j ==> !encoders@[k],
            None => forall|k: int| 0 <= k < encoders@.len() ==> !encoders@[k],
        },
{
    let n = encoders.len();
    let mut j: usize = 0;
    while j < n
        invariant
            n == encoders@.len(),
            j <= n,
            forall|k: int| 0 <= k < j ==> !encoders@[k],
        decreases n - j,
    {
        if encoders[j] {
            return Some(j);
        }
        j = j + 1;
    }
    None
}

/// Chooses the connector of the primary device: the first usable one in order, driven
/// through its preferred CRTC source.
pub fn pick_primary_connector(probes: &Vec<ConnectorProbe>) -> (r: Option<(usize, CrtcSource)>)
    ensures
        match r {
            Some((i, source)) => i < probes@.len() && probes@[i as int].connected && usable(probes@[i as int])
                && preferred_source(probes@[i as int], source)
                && forall|k: int| 0 <= k < i ==> !usable(#[trigger] probes@[k]),
            None => forall|k: int| 0 <= k < probes@.len() ==> !usable(#[trigger] probes@[k]),
        },
{
    let n = probes.len();
    let mut i: usize = 0;
    while i < n
        invariant
            n == probes@.len(),
            i <= n,
            forall|k: int| 0 <= k < i ==> !usable(#[trigger] probes@[k]),
        decreases n - i,
    {
        let p = &probes[i];
        if p.connected {
            if p.current_has_crtc {
                return Some((i, CrtcSource::Current));
            }
            match first_encoder_with_crtc(&p.encoders_with_crtc) {
                Some(j) => {
                    return Some((i, CrtcSource::Encoder(j)));
                },
                None => {},
            }
        }
        i = i + 1;
    }
    None
}

/// The choice on a further device, read connector by connector: a connector whose
/// current encoder resolves ends the search; one that resolves only through its
/// encoder list is taken, but a later connector may still replace it.
pub open spec fn secondary_choice(probes: Seq<ConnectorProbe>) -> Option<(int, CrtcSource)>
    decreases probes.len(),
{
    if probes.len() == 0 {
        None
    } else {
        let earlier = secondary_choice(probes.drop_last());
        let i = probes.len() - 1;
        let p = probes.last();
        if earlier matches Some((_, CrtcSource::Current)) {
            earlier
        } else if p.connected && p.current_has_crtc {
            Some((i, CrtcSource::Current))
        } else if p.connected && first_true(p.encoders_with_crtc@) is Some {
            Some((i, CrtcSource::Encoder(first_true(p.encoders_with_crtc@).unwrap() as usize)))
        } else {
            earlier
        }
    }
}

/// A list with a set position has a first set position.
proof fn lemma_first_set_exists(v: Seq<bool>, j: int)
    requires
        0 <= j < v.len(),
        v[j],
    ensures
        exists|m: int| 0 <= m < v.len() && v[m] && forall|k: int| 0 <= k < m ==> !v[k],
    decreases j,
{
    if exists|k: int| 0 <= k < j && v[k] {
        let k = choose|k: int| 0 <= k < j && v[k];
        lemma_first_set_exists(v, k);
    } else {
        assert(0 <= j < v.len() && v[j] && forall|k: int| 0 <= k < j ==> !v[k]);
    }
}

/// `first_true` gives the first set position, and `None` exactly when none is set.
proof fn lemma_first_true_spec(v: Seq<bool>)
    ensures
        first_true(v) matches Some(t) ==> 0 <= t < v.len() && v[t] && forall|k: int| 0 <= k < t ==> !v[k],
        first_true(v) is None <==> forall|j: int| 0 <= j < v.len() ==> !v[j],
{
    if exists|j: int| 0 <= j < v.len() && v[j] {
        let j = choose|j: int| 0 <= j < v.len() && v[j];
        lemma_first_set_exists(v, j);
    }
}

/// A probe is usable exactly when it is connected and its current encoder or some
/// encoder of its list resolves; its preferred source is the current encoder when that
/// resolves, else the first encoder of the list that does.
proof fn lemma_probe_usable(p: ConnectorProbe)
    requires
        p.encoders_with_crtc@.len() <= usize::MAX,
    ensures
        usable(p) <==> p.connected && (p.current_has_crtc || first_true(p.encoders_with_crtc@) is Some),
        p.current_has_crtc ==> preferred_source(p, CrtcSource::Current),
        !p.current_has_crtc && first_true(p.encoders_with_crtc@) is Some
            ==> preferred_source(p, CrtcSource::Encoder(first_true(p.encoders_with_crtc@).unwrap() as usize)),
{
    let v = p.encoders_with_crtc@;
    lemma_first_true_spec(v);
    if first_true(v) is Some {
        let t = first_true(v).unwrap();
        assert((t as usize) as int == t);
        assert(v[t]);
    }
}

/// The connector chosen on a further device is always a usable one, connected and driven
/// through its preferred CRTC source; none is chosen only when no connector is usable;
/// and once some connector resolves through its current encoder, the choice is driven
/// through a current encoder.
#[verifier::rlimit(30)]
pub proof fn lemma_secondary_choice_usable(probes: Seq<ConnectorProbe>)
    requires
        forall|k: int| 0 <= k < probes.len() ==> (#[trigger] probes[k]).encoders_with_crtc@.len() <= usize::MAX,
    ensures
        secondary_choice(probes) matches Some((i, source)) ==> {
            &&& 0 <= i < probes.len()
            &&& probes[i].connected
            &&& usable(probes[i])
            &&& preferred_source(probes[i], source)
        },
        secondary_choice(probes) is None <==> forall|k: int| 0 <= k < probes.len() ==> !usable(#[trigger] probes[k]),
        (exists|k: int| 0 <= k < probes.len() && (#[trigger] probes[k]).connected && probes[k].current_has_crtc)
            ==> secondary_choice(probes) matches Some((_, CrtcSource::Current)),
    decreases probes.len(),
{
    if probes.len() > 0 {
        let prev = probes.drop_last();
        let n = probes.len() - 1;
        let p = probes[n];
        assert forall|k: int| 0 <= k < prev.len() implies (#[trigger] prev[k]).encoders_with_crtc@.len() <= usize::MAX by {
            assert(prev[k] == probes[k]);
        }
        lemma_secondary_choice_usable(prev);
        assert(probes.last() == p);
        lemma_probe_usable(p);
        if exists|k: int| 0 <= k < probes.len() && (#[trigger] probes[k]).connected && probes[k].current_has_crtc {
            let k = choose|k: int| 0 <= k < probes.len() && (#[trigger] probes[k]).connected && probes[k].current_has_crtc;
            if k < n {
                assert(prev[k] == probes[k]);
            }
        }
        if secondary_choice(probes) is None {
            assert forall|k: int| 0 <= k < probes.len() implies !usable(#[trigger] probes[k]) by {
                if k < n {
                    assert(prev[k] == probes[k]);
                }
            }
        }
        if forall|k: int| 0 <= k < probes.len() ==> !usable(#[trigger] probes[k]) {
            assert forall|k: int| 0 <= k < prev.len() implies !usable(#[trigger] prev[k]) by {
                assert(prev[k] == probes[k]);
                assert(!usable(probes[k]));
            }
            assert(!usable(probes[n]));
        }
        match secondary_choice(probes) {
            Some((i, source)) => {
                if i < n {
                    assert(prev[i] == probes[i]);
                }
            },
            None => {},
        }
    }
}

/// Chooses the connector of a further device (see `secondary_choice`): always a
/// connected, usable one, driven through its preferred CRTC source.
pub fn pick_secondary_connector(probes: &Vec<ConnectorProbe>) -> (r: Option<(usize, CrtcSource)>)
    ensures
        match r {
            Some((i, source)) => secondary_choice(probes@) == Some((i as int, source)),
            None => secondary_choice(probes@) is None,
        },
        match r {
            Some((i, source)) => i < probes@.len() && probes@[i as int].connected && usable(probes@[i as int])
                && preferred_source(probes@[i as int], source),
            None => forall|k: int| 0 <= k < probes@.len() ==> !usable(#[trigger] probes@[k]),
        },
{
    proof {
        assert forall|k: int| 0 <= k < probes@.len() implies (#[trigger] probes@[k]).encoders_with_crtc@.len() <= usize::MAX by {
            assert(probes@[k].encoders_with_crtc.len() == probes@[k].encoders_with_crtc@.len());
        }
        lemma_secondary_choice_usable(probes@);
    }
    let n = probes.len();
    let mut chosen: Option<(usize, CrtcSource)> = None;
    let mut i: usize = 0;
    while i < n
        invariant
            n == probes@.len(),
            i <= n,
            match chosen {
                Some((k, source)) => secondary_choice(probes@.take(i as int)) == Some((k as int, source)),
                None => secondary_choice(probes@.take(i as int)) is None,
            },
            !(chosen matches Some((_, CrtcSource::Current))),
        decreases n - i,
    {
        let p = &probes[i];
        let ghost prefix = probes@.take(i + 1);
        assert(prefix.drop_last() =~= probes@.take(i as int));
        assert(prefix.last() == *p);
        if p.connected {
            if p.current_has_crtc {
                proof {
                    lemma_secondary_stops(probes@, i as int + 1);
                    assert(probes@.take(n as int) =~= probes@);
                }
                return Some((i, CrtcSource::Current));
            }
            match first_encoder_with_crtc(&p.encoders_with_crtc) {
                Some(j) => {
                    proof {
                        lemma_first_true(p.encoders_with_crtc@, j as int);
                    }
                    chosen = Some((i, CrtcSource::Encoder(j)));
                },
                None => {
                    proof {
                        lemma_first_true_none(p.encoders_with_crtc@);
                    }
                },
            }
        }
        i = i + 1;
    }
    assert(probes@.take(n as int) =~= probes@);
    chosen
}

/// `first_true` is the first set position.
proof fn lemma_first_true(v: Seq<bool>, j: int)
    requires
        0 <= j < v.len(),
        v[j],
        forall|k: int| 0 <= k < j ==> !v[k],
    ensures
        first_true(v) == Some(j),
{
    let c = choose|c: int| 0 <= c < v.len() && v[c] && forall|k: int| 0 <= k < c ==> !v[k];
    assert(0 <= c < v.len() && v[c] && forall|k: int| 0 <= k < c ==> !v[k]);
    if c < j {
        assert(!v[c]);
    } else if c > j {
        assert(!v[j]);
    }
}

/// `first_true` is `None` when no position is set.
proof fn lemma_first_true_none(v: Seq<bool>)
    requires
        forall|k: int| 0 <= k < v.len() ==> !v[k],
    ensures
        first_true(v) is None,
{
}

/// Once a connector resolved through its current encoder, later connectors change nothing.
proof fn lemma_secondary_stops(probes: Seq<ConnectorProbe>, i: int)
    requires
        0 < i <= probes.len(),
        secondary_choice(probes.take(i)) matches Some((_, CrtcSource::Current)),
    ensures
        secondary_choice(probes) == secondary_choice(probes.take(i)),
    decreases probes.len() - i,
{
    if i < probes.len() {
        let next = probes.take(i + 1);
        assert(next.drop_last() =~= probes.take(i));
        lemma_secondary_stops(probes, i + 1);
    } else {
        assert(probes.take(i) =~= probes);
    }
}

/// The mode to use from a connector's list: the first one flagged as preferred, else
/// the first one; `None` when the list is empty.
pub fn choose_mode(preferred: &Vec<bool>) -> (r: Option<usize>)
    ensures
        match r {
            Some(i) => i < preferred@.len() && (if exists|j: int| 0 <= j < preferred@.len() && preferred@[j] {
                preferred@[i as int] && forall|k: int| 0 <= k < i ==> !preferred@[k]
            } else {
                i == 0
            }),
            None => preferred@.len() == 0,
        },
{
    let n = preferred.len();
    let mut i: usize = 0;
    while i < n
        invariant
            n == preferred@.len(),
            i <= n,
            forall|k: int| 0 <= k < i ==> !preferred@[k],
        decreases n - i,
    {
        if preferred[i] {
            return Some(i);
        }
        i = i + 1;
    }
    if n > 0 {
        Some(0)
    } else {
        None
    }
}

/// A refresh rate in Hz as the output mode's millihertz: the rate taken as an `i32`
/// (wrapping past `i32::MAX`), times 1000.
pub open spec fn refresh_as_i32(vrefresh: u32) -> int {
    if vrefresh <= i32::MAX {
        vrefresh as int
    } else {
        vrefresh - 0x1_0000_0000
    }
}

/// The output mode's refresh in millihertz for a rate in Hz (see `refresh_as_i32`).
pub fn refresh_millihertz(vrefresh: u32) -> (r: i32)
    requires
        i32::MIN <= refresh_as_i32(vrefresh) * 1000 <= i32::MAX,
    ensures
        r == refresh_as_i32(vrefresh) * 1000,
        vrefresh <= 0x7fff_ffff ==> r == vrefresh * 1000,
        vrefresh > 0x7fff_ffff ==> r == (vrefresh - 0x1_0000_0000) * 1000,
{
    let v: i32 = if vrefresh <= 0x7fff_ffff {
        vrefresh as i32
    } else {
        (vrefresh as i64 - 0x1_0000_0000i64) as i32
    };
    v * 1000
}

} // verus!
