use gpur::backend::composite::{
    compose, compose_with_generic, Composed, CompositeBackend, PCI_VENDOR_AMD, PCI_VENDOR_INTEL,
    PCI_VENDOR_NVIDIA,
};
use gpur::backend::{GpuProcess, GpuSnapshot};

/// Scripted child: one entry per poll, `None` meaning that poll fails. The last
/// entry repeats once the script runs out.
struct Stub {
    name: &'static str,
    ticks: Vec<Option<Vec<&'static str>>>,
    tick: usize,
    /// Pid and the child's own card index.
    procs: Vec<(u32, usize)>,
    driver: Option<&'static str>,
    signal: bool,
    /// Whether devices carry an id (the device name doubles as one).
    ids: bool,
}

impl Stub {
    fn new(name: &'static str, ticks: Vec<Option<Vec<&'static str>>>) -> Self {
        Self {
            name,
            ticks,
            tick: 0,
            procs: Vec::new(),
            driver: None,
            signal: true,
            ids: true,
        }
    }
    fn no_ids(mut self) -> Self {
        self.ids = false;
        self
    }
    fn procs(mut self, procs: &[(u32, usize)]) -> Self {
        self.procs = procs.to_vec();
        self
    }
    fn driver(mut self, driver: &'static str) -> Self {
        self.driver = Some(driver);
        self
    }
    fn no_signal(mut self) -> Self {
        self.signal = false;
        self
    }
    fn poll(&mut self) -> Result<Vec<GpuSnapshot>, String> {
        let i = self.tick.min(self.ticks.len() - 1);
        self.tick += 1;
        match &self.ticks[i] {
            Some(names) => Ok(names
                .iter()
                .map(|n| GpuSnapshot {
                    name: (*n).to_string(),
                    device_id: self.ids.then_some((*n).to_string()),
                    ..Default::default()
                })
                .collect()),
            None => Err(format!("{} is down", self.name)),
        }
    }
    fn rows(&self) -> Vec<GpuProcess> {
        self.procs
            .iter()
            .map(|&(pid, gpu_index)| GpuProcess {
                pid,
                gpu_index,
                ..Default::default()
            })
            .collect()
    }
}

/// Several children behind one list.
struct Multi {
    stubs: Vec<Stub>,
    core: CompositeBackend,
}

impl Multi {
    fn new(stubs: Vec<Stub>) -> Self {
        let core = CompositeBackend::new(stubs.iter().map(|s| s.name.to_string()).collect());
        Multi { stubs, core }
    }
    fn name(&self) -> &'static str {
        self.core.name()
    }
    fn poll(&mut self) -> Result<Vec<GpuSnapshot>, String> {
        let polled = self.stubs.iter_mut().map(Stub::poll).collect();
        self.core.poll(polled)
    }
    fn processes(&mut self) -> Vec<GpuProcess> {
        self.core.processes(self.stubs.iter().map(Stub::rows).collect())
    }
    fn driver_info(&self) -> Option<String> {
        let infos = self.stubs.iter().map(|s| s.driver.map(str::to_string)).collect();
        self.core.driver_info(&infos)
    }
    fn can_signal(&self) -> bool {
        self.core.can_signal(&self.stubs.iter().map(|s| s.signal).collect())
    }
}

/// What composing gave, ready to poll.
enum Rig {
    One(Stub),
    Many(Multi),
}

impl Rig {
    fn of(c: Composed<Stub>) -> Self {
        match c {
            Composed::One(s) => Rig::One(s),
            Composed::Many(v) => Rig::Many(Multi::new(v)),
        }
    }
    fn name(&self) -> &'static str {
        match self {
            Rig::One(s) => s.name,
            Rig::Many(m) => m.name(),
        }
    }
    fn poll(&mut self) -> Result<Vec<GpuSnapshot>, String> {
        match self {
            Rig::One(s) => s.poll(),
            Rig::Many(m) => m.poll(),
        }
    }
    fn driver_info(&self) -> Option<String> {
        match self {
            Rig::One(s) => s.driver.map(str::to_string),
            Rig::Many(m) => m.driver_info(),
        }
    }
}

fn names(snaps: &[GpuSnapshot]) -> Vec<&str> {
    snaps.iter().map(|s| s.name.as_str()).collect()
}

fn ids(snaps: &[GpuSnapshot]) -> Vec<Option<&str>> {
    snaps.iter().map(|s| s.device_id.as_deref()).collect()
}

#[test]
fn one_backend_is_not_wrapped() {
    let b = Rig::of(compose(vec![Stub::new("solo", vec![Some(vec!["a"])])]).unwrap());
    assert_eq!(b.name(), "solo");
    assert!(compose(Vec::<Stub>::new()).is_err());
}

#[test]
fn children_concatenate_in_probe_order() {
    let mut b = Multi::new(vec![
        Stub::new("nv", vec![Some(vec!["4090", "4080"])]),
        Stub::new("amd", vec![Some(vec!["APU"])]),
    ]);
    assert_eq!(names(&b.poll().unwrap()), ["4090", "4080", "APU"]);
    assert_eq!(b.name(), "multi");
}

#[test]
fn process_indices_rebase_onto_the_child_offset() {
    let mut b = Multi::new(vec![
        Stub::new("nv", vec![Some(vec!["4090", "4080"])]).procs(&[(1, 0), (2, 1)]),
        Stub::new("amd", vec![Some(vec!["APU"])]).procs(&[(3, 0)]),
    ]);
    b.poll().unwrap();
    let procs: Vec<(u32, usize)> = b.processes().iter().map(|p| (p.pid, p.gpu_index)).collect();
    assert_eq!(procs, [(1, 0), (2, 1), (3, 2)]);
}

#[test]
fn a_failing_child_holds_its_slots_open() {
    let mut b = Multi::new(vec![
        Stub::new("nv", vec![Some(vec!["4090", "4080"]), None]).procs(&[(1, 0)]),
        Stub::new("amd", vec![Some(vec!["APU"])]).procs(&[(3, 0)]),
    ]);
    b.poll().unwrap();
    let snaps = b.poll().unwrap();
    assert_eq!(
        names(&snaps),
        ["4090 (unavailable)", "4080 (unavailable)", "APU"]
    );
    let procs: Vec<(u32, usize)> = b.processes().iter().map(|p| (p.pid, p.gpu_index)).collect();
    assert_eq!(procs, [(1, 0), (3, 2)]);
}

#[test]
fn a_short_child_holds_its_slots_open() {
    let mut b = Multi::new(vec![
        Stub::new(
            "nv",
            vec![Some(vec!["4090", "4080"]), Some(vec!["4090"])],
        ),
        Stub::new("amd", vec![Some(vec!["APU"])]),
    ]);
    b.poll().unwrap();
    assert_eq!(
        names(&b.poll().unwrap()),
        ["4090", "4080 (unavailable)", "APU"]
    );
}

#[test]
fn device_ids_are_namespaced_per_child() {
    let mut b = Multi::new(vec![
        Stub::new("nv", vec![Some(vec!["gpu0"])]),
        Stub::new("amd", vec![Some(vec!["gpu0"])]),
    ]);
    assert_eq!(
        ids(&b.poll().unwrap()),
        [Some("nv#0:gpu0"), Some("amd#1:gpu0")]
    );

    let mut same = Multi::new(vec![
        Stub::new("nv", vec![Some(vec!["gpu0"])]),
        Stub::new("nv", vec![Some(vec!["gpu0"])]),
    ]);
    assert_eq!(
        ids(&same.poll().unwrap()),
        [Some("nv#0:gpu0"), Some("nv#1:gpu0")]
    );
}

#[test]
fn a_child_without_ids_reports_none() {
    let mut b = Multi::new(vec![
        Stub::new("nv", vec![Some(vec!["4090"])]),
        Stub::new("pdh", vec![Some(vec!["iGPU"])]).no_ids(),
    ]);
    assert_eq!(ids(&b.poll().unwrap()), [Some("nv#0:4090"), None]);
}

#[test]
fn a_placeholder_keeps_the_id_of_the_slot_it_holds() {
    let mut b = Multi::new(vec![
        Stub::new(
            "nv",
            vec![Some(vec!["4090", "4080"]), Some(vec!["4090"])],
        ),
        Stub::new("amd", vec![Some(vec!["APU"]), None]),
    ]);
    b.poll().unwrap();
    assert_eq!(
        ids(&b.poll().unwrap()),
        [Some("nv#0:4090"), Some("nv#0:4080"), Some("amd#1:APU")]
    );
}

#[test]
fn a_process_outside_its_child_span_is_dropped() {
    let mut b = Multi::new(vec![
        Stub::new("nv", vec![Some(vec!["4090"])]).procs(&[(1, 0), (2, 7)]),
        Stub::new("amd", vec![Some(vec!["APU"])]).procs(&[(3, 0)]),
    ]);
    b.poll().unwrap();
    let procs: Vec<(u32, usize)> = b.processes().iter().map(|p| (p.pid, p.gpu_index)).collect();
    assert_eq!(procs, [(1, 0), (3, 1)]);
}

#[test]
fn three_children_concatenate_and_rebase_processes() {
    let mut b = Multi::new(vec![
        Stub::new("nvml", vec![Some(vec!["4090", "4080"])]).procs(&[(1, 0), (2, 1)]),
        Stub::new("amdgpu", vec![Some(vec!["780M"])]).procs(&[(3, 0)]),
        Stub::new("intel", vec![Some(vec!["UHD", "Arc"])]).procs(&[(4, 0), (5, 1)]),
    ]);
    assert_eq!(
        names(&b.poll().unwrap()),
        ["4090", "4080", "780M", "UHD", "Arc"]
    );
    assert_eq!(
        ids(&b.poll().unwrap()),
        [
            Some("nvml#0:4090"),
            Some("nvml#0:4080"),
            Some("amdgpu#1:780M"),
            Some("intel#2:UHD"),
            Some("intel#2:Arc"),
        ]
    );
    let procs: Vec<(u32, usize)> = b.processes().iter().map(|p| (p.pid, p.gpu_index)).collect();
    assert_eq!(procs, [(1, 0), (2, 1), (3, 2), (4, 3), (5, 4)]);
}

#[test]
fn a_middle_child_changing_size_moves_the_children_after_it() {
    let mut b = Multi::new(vec![
        Stub::new("nvml", vec![Some(vec!["4090"])]).procs(&[(1, 0)]),
        Stub::new(
            "amdgpu",
            vec![
                Some(vec!["W7900", "W7800"]),
                Some(vec!["W7900"]),
                Some(vec!["W7900", "W7800", "W7700"]),
            ],
        ),
        Stub::new("intel", vec![Some(vec!["Arc"])]).procs(&[(9, 0)]),
    ]);
    let last = |b: &mut Multi| {
        b.processes()
            .iter()
            .map(|p| (p.pid, p.gpu_index))
            .collect::<Vec<_>>()
    };

    assert_eq!(names(&b.poll().unwrap()), ["4090", "W7900", "W7800", "Arc"]);
    assert_eq!(last(&mut b), [(1, 0), (9, 3)]);

    let snaps = b.poll().unwrap();
    assert_eq!(
        names(&snaps),
        ["4090", "W7900", "W7800 (unavailable)", "Arc"]
    );
    assert_eq!(ids(&snaps)[2], Some("amdgpu#1:W7800"));
    assert_eq!(last(&mut b), [(1, 0), (9, 3)]);

    let snaps = b.poll().unwrap();
    assert_eq!(names(&snaps), ["4090", "W7900", "W7800", "W7700", "Arc"]);
    assert_eq!(ids(&snaps)[4], Some("intel#2:Arc"));
    assert_eq!(last(&mut b), [(1, 0), (9, 4)]);
}

#[test]
fn a_child_with_no_devices_takes_no_slots() {
    let mut b = Multi::new(vec![
        Stub::new("nvml", vec![Some(vec!["4090"])]).procs(&[(1, 0)]),
        Stub::new("empty", vec![Some(Vec::new())]).procs(&[(7, 0)]),
        Stub::new("amdgpu", vec![Some(vec!["780M"])]).procs(&[(3, 0)]),
    ]);
    assert_eq!(names(&b.poll().unwrap()), ["4090", "780M"]);
    let procs: Vec<(u32, usize)> = b.processes().iter().map(|p| (p.pid, p.gpu_index)).collect();
    assert_eq!(procs, [(1, 0), (3, 1)]);
}

#[test]
fn a_vacated_slot_does_not_duplicate_a_live_device_id() {
    let mut b = Multi::new(vec![
        Stub::new("nv", vec![Some(vec!["A", "B"]), Some(vec!["B"])]),
        Stub::new("amd", vec![Some(vec!["APU"])]),
    ]);
    b.poll().unwrap();
    let snaps = b.poll().unwrap();
    assert_eq!(ids(&snaps), [Some("nv#0:B"), None, Some("amd#1:APU")]);
    assert_eq!(names(&snaps), ["B", "nv GPU 1 (unavailable)", "APU"]);
}

#[test]
fn every_child_failing_is_a_poll_error() {
    let mut b = Multi::new(vec![
        Stub::new("nv", vec![None]),
        Stub::new("amd", vec![None]),
    ]);
    let err = b.poll().unwrap_err();
    assert!(
        err.contains("nv is down") && err.contains("amd is down"),
        "{err}"
    );
}

#[test]
fn an_empty_result_surfaces_a_partial_failure() {
    let mut b = Multi::new(vec![
        Stub::new("nv", vec![None]),
        Stub::new("amd", vec![Some(Vec::new())]),
    ]);
    let err = b.poll().unwrap_err();
    assert!(err.contains("nv is down"), "{err}");
}

#[test]
fn can_signal_is_the_and_of_the_children() {
    let live = || Stub::new("nv", vec![Some(vec!["4090"])]);
    assert!(Multi::new(vec![live(), live()]).can_signal());
    assert!(
        !Multi::new(vec![
            live(),
            Stub::new("mock", vec![Some(vec!["fake"])]).no_signal(),
        ])
        .can_signal()
    );
    assert!(Multi::new(vec![live(), live(), live()]).can_signal());
    assert!(
        !Multi::new(vec![
            live(),
            Stub::new("replay", vec![Some(vec!["rec"])]).no_signal(),
            live(),
        ])
        .can_signal()
    );
}

/// A generic backend that sees every adapter and reports those that no vendor
/// backend claimed.
fn generic(adapters: &[(&'static str, u16)]) -> impl FnOnce(&Vec<u16>) -> Option<Stub> {
    let adapters = adapters.to_vec();
    move |claimed: &Vec<u16>| {
        let kept: Vec<&'static str> = adapters
            .iter()
            .filter(|(_, vendor)| !claimed.contains(vendor))
            .map(|&(name, _)| name)
            .collect();
        if kept.is_empty() {
            None
        } else {
            Some(Stub::new("pdh", vec![Some(kept)]))
        }
    }
}

fn vendor(name: &'static str, vendors: &[u16]) -> (Stub, Vec<u16>) {
    (Stub::new(name, vec![Some(vec!["card"])]), vendors.to_vec())
}

#[test]
fn a_generic_backend_contributes_only_unclaimed_vendors() {
    let nv = (
        Stub::new("nvml", vec![Some(vec!["4090"])]),
        vec![PCI_VENDOR_NVIDIA],
    );
    let mut b = Rig::of(compose_with_generic(
        vec![nv],
        generic(&[("4090", PCI_VENDOR_NVIDIA), ("780M", PCI_VENDOR_AMD)]),
    ).unwrap());
    assert_eq!(b.name(), "multi");
    assert_eq!(names(&b.poll().unwrap()), ["4090", "780M"]);
}

#[test]
fn a_generic_backend_without_overlap_contributes_everything() {
    let mut b = Rig::of(compose_with_generic(
        vec![
            vendor("nvml", &[PCI_VENDOR_NVIDIA]),
            vendor("amdgpu", &[PCI_VENDOR_AMD]),
        ],
        generic(&[("UHD", PCI_VENDOR_INTEL), ("Arc", PCI_VENDOR_INTEL)]),
    ).unwrap());
    assert_eq!(names(&b.poll().unwrap()), ["card", "card", "UHD", "Arc"]);

    let mut both = Rig::of(compose_with_generic(
        vec![
            vendor("nvml", &[PCI_VENDOR_NVIDIA]),
            vendor("amdgpu", &[PCI_VENDOR_AMD]),
        ],
        generic(&[("4090", PCI_VENDOR_NVIDIA), ("780M", PCI_VENDOR_AMD)]),
    ).unwrap());
    assert_eq!(names(&both.poll().unwrap()), ["card", "card"]);
}

#[test]
fn a_generic_backend_alone_is_unfiltered_and_unwrapped() {
    let mut b = Rig::of(compose_with_generic(
        Vec::new(),
        generic(&[("780M", PCI_VENDOR_AMD), ("UHD", PCI_VENDOR_INTEL)]),
    ).unwrap());
    assert_eq!(b.name(), "pdh");
    assert_eq!(names(&b.poll().unwrap()), ["780M", "UHD"]);
}

#[test]
fn a_fully_claimed_generic_backend_drops_out() {
    let b = Rig::of(compose_with_generic(
        vec![vendor("nvml", &[PCI_VENDOR_NVIDIA])],
        generic(&[("4090", PCI_VENDOR_NVIDIA)]),
    ).unwrap());
    assert_eq!(b.name(), "nvml");
}

#[test]
fn a_vendor_that_did_not_probe_claims_nothing() {
    let mut b = Rig::of(compose_with_generic(
        vec![vendor("nvml", &[PCI_VENDOR_NVIDIA])],
        generic(&[
            ("4090", PCI_VENDOR_NVIDIA),
            ("780M", PCI_VENDOR_AMD),
            ("UHD", PCI_VENDOR_INTEL),
        ]),
    ).unwrap());
    assert_eq!(b.name(), "multi");
    assert_eq!(names(&b.poll().unwrap()), ["card", "780M", "UHD"]);
    assert_eq!(
        b.driver_info().as_deref(),
        Some("nvml · pdh"),
        "a child must not drop out of the header"
    );
}

#[test]
fn nothing_probing_at_all_is_still_an_error() {
    assert!(compose_with_generic(Vec::new(), generic(&[])).is_err());
}

#[test]
fn driver_info_joins_and_names_the_children() {
    let b = Multi::new(vec![
        Stub::new("nvml", vec![Some(vec!["4090"])]).driver("driver 550.1"),
        Stub::new("amdgpu", vec![Some(vec!["APU"])]).driver("amdgpu · kernel 7.1"),
        Stub::new("intel", vec![Some(vec!["iGPU"])]),
    ]);
    assert_eq!(
        b.driver_info().as_deref(),
        Some("nvml driver 550.1 · amdgpu · kernel 7.1 · intel")
    );
}
