//! `autonice install` — self-install as a systemd service.
//!
//! What is to be done to copy the running binary to /usr/local/bin, write the
//! systemd unit and a default config, and enable the service. Because the unit
//! and config travel inside the binary, a single `autonice` file is all you need
//! on the target host.

use vstd::prelude::*;

use crate::schema;
use crate::text;

verus! {

/// The systemd unit.
pub const SERVICE: &'static str = "[Unit]
Description=autonice: eBPF-driven automatic renicing
Documentation=man:setpriority(2)

[Service]
Type=simple
ExecStart=/usr/local/bin/autonice
Restart=on-failure
AmbientCapabilities=CAP_BPF CAP_PERFMON CAP_SYS_NICE
CapabilityBoundingSet=CAP_BPF CAP_PERFMON CAP_SYS_NICE
NoNewPrivileges=yes

[Install]
WantedBy=multi-user.target
";

pub const BIN_DEST: &'static str = "/usr/local/bin/autonice";

pub const UNIT_DEST: &'static str = "/etc/systemd/system/autonice.service";

pub const CONFIG_DEST: &'static str = "/etc/autonice.toml";

pub const SERVICE_NAME: &'static str = "autonice";

/// The mode of the installed binary.
pub const BIN_MODE: u32 = 0o755;

/// The mode of the installed files.
pub const FILE_MODE: u32 = 0o644;

/// One thing to do. A step that fails ends the installation: see
/// [`Installation::next`].
#[derive(Debug)]
pub enum Step {
    /// Create the directory that holds `path`, and those above it.
    CreateParent { path: String },
    /// Copy the running binary.
    CopySelf { to: String },
    /// Write a file.
    Write { path: String, contents: String },
    /// Set a file's mode.
    SetMode { path: String, mode: u32 },
    /// Run systemctl; see [`systemctl`].
    Systemctl { args: Vec<String> },
    /// Tell the user.
    Say { line: String },
}

/// What a [`Step`] says.
pub ghost enum StepModel {
    CreateParent { path: Seq<char> },
    CopySelf { to: Seq<char> },
    Write { path: Seq<char>, contents: Seq<char> },
    SetMode { path: Seq<char>, mode: u32 },
    Systemctl { args: Seq<Seq<char>> },
    Say { line: Seq<char> },
}

impl View for Step {
    type V = StepModel;

    open spec fn view(&self) -> StepModel {
        match *self {
            Step::CreateParent { path } => StepModel::CreateParent { path: path@ },
            Step::CopySelf { to } => StepModel::CopySelf { to: to@ },
            Step::Write { path, contents } => StepModel::Write {
                path: path@,
                contents: contents@,
            },
            Step::SetMode { path, mode } => StepModel::SetMode { path: path@, mode },
            Step::Systemctl { args } => StepModel::Systemctl {
                args: args@.map_values(|a: String| a@),
            },
            Step::Say { line } => StepModel::Say { line: line@ },
        }
    }
}

/// A part of the installation. Which steps two of them take depends on what is
/// found when they are reached.
#[derive(Debug)]
pub enum Phase {
    /// The steps of [`install_self`].
    InstallSelf,
    /// The steps of [`install_config`].
    InstallConfig,
    /// These steps.
    Steps(Vec<Step>),
}

/// What a [`Phase`] says.
pub ghost enum PhaseModel {
    InstallSelf,
    InstallConfig,
    Steps { steps: Seq<StepModel> },
}

impl View for Phase {
    type V = PhaseModel;

    open spec fn view(&self) -> PhaseModel {
        match *self {
            Phase::InstallSelf => PhaseModel::InstallSelf,
            Phase::InstallConfig => PhaseModel::InstallConfig,
            Phase::Steps(steps) => PhaseModel::Steps { steps: models(steps@) },
        }
    }
}

/// What steps say.
pub open spec fn models(steps: Seq<Step>) -> Seq<StepModel> {
    steps.map_values(|s: Step| s@)
}

/// Why nothing is installed.
#[derive(Clone, Copy, Debug, PartialEq, Eq, Structural)]
pub enum InstallError {
    /// Writing to /usr/local/bin + /etc and driving systemd all need root.
    NotRoot,
}

impl InstallError {
    /// What to tell the user.
    pub fn message(&self) -> (message: &'static str)
        ensures
            message@ == "`autonice install` must run as root (try: sudo autonice install)"@,
    {
        "`autonice install` must run as root (try: sudo autonice install)"
    }
}

/// The steps that put `contents` at `path`.
pub open spec fn file_steps(path: Seq<char>, contents: Seq<char>, mode: u32) -> Seq<StepModel> {
    seq![
        StepModel::CreateParent { path },
        StepModel::Write { path, contents },
        StepModel::SetMode { path, mode },
    ]
}

/// What the user reads at the end.
pub open spec fn farewell() -> Seq<char> {
    "\nautonice is installed and running.\n  status: systemctl status "@ + SERVICE_NAME@
        + "\n  logs:   journalctl -u "@ + SERVICE_NAME@ + " -f"@
}

/// The whole installation: the binary, the unit, the config, and then the
/// service, which systemd first has to be told of.
pub open spec fn phases() -> Seq<PhaseModel> {
    seq![
        PhaseModel::InstallSelf,
        PhaseModel::Steps {
            steps: file_steps(UNIT_DEST@, SERVICE@, FILE_MODE).push(
                StepModel::Say { line: "wrote "@ + UNIT_DEST@ },
            ),
        },
        PhaseModel::InstallConfig,
        PhaseModel::Steps {
            steps: seq![
                StepModel::Systemctl { args: seq!["daemon-reload"@] },
                StepModel::Systemctl { args: seq!["enable"@, "--now"@, SERVICE_NAME@] },
                StepModel::Say { line: farewell() },
            ],
        },
    ]
}

/// The steps that install the running binary, which is shown to the user as
/// `exe`; none but to say so where it already is the installed one.
pub open spec fn self_steps(exe: Seq<char>, installed: bool) -> Seq<StepModel> {
    if installed {
        seq![
            StepModel::Say {
                line: BIN_DEST@ + " is already the running binary; leaving it in place"@,
            },
        ]
    } else {
        seq![
            StepModel::CreateParent { path: BIN_DEST@ },
            StepModel::CopySelf { to: BIN_DEST@ },
            StepModel::SetMode { path: BIN_DEST@, mode: BIN_MODE },
            StepModel::Say { line: "installed "@ + exe + " -> "@ + BIN_DEST@ },
        ]
    }
}

/// The steps that install the default config; none but to say so where there
/// is a config already.
pub open spec fn config_steps(exists: bool) -> Seq<StepModel> {
    if exists {
        seq![StepModel::Say { line: CONFIG_DEST@ + " already exists; keeping it"@ }]
    } else {
        file_steps(CONFIG_DEST@, schema::DEFAULT_CONFIG@, FILE_MODE).push(
            StepModel::Say { line: "wrote default config "@ + CONFIG_DEST@ },
        )
    }
}

/// Whether the running binary is the installed one: both are found, and they
/// are the same file.
pub open spec fn already_installed(exe: Option<&[u8]>, dest: Option<&[u8]>) -> bool {
    exe matches Some(a) && dest matches Some(b) && a@ == b@
}

/// The installation, for a user with the effective uid `euid`.
pub fn run(euid: u32) -> (plan: Result<Vec<Phase>, InstallError>)
    ensures
        match plan {
            Ok(p) => euid == 0 && p@.map_values(|p: Phase| p@) == phases(),
            Err(e) => euid != 0 && e == InstallError::NotRoot,
        },
{
    if euid != 0 {
        return Err(InstallError::NotRoot);
    }
    let mut unit = write_file(UNIT_DEST, SERVICE, FILE_MODE);
    let ghost unit_file = models(unit@);
    unit.push(Step::Say { line: "wrote ".to_owned().concat(UNIT_DEST) });
    assert(models(unit@) == unit_file.push(StepModel::Say { line: "wrote "@ + UNIT_DEST@ }));

    let mut reload: Vec<String> = Vec::new();
    reload.push("daemon-reload".to_owned());
    let mut enable: Vec<String> = Vec::new();
    enable.push("enable".to_owned());
    enable.push("--now".to_owned());
    enable.push(SERVICE_NAME.to_owned());
    let line = "\nautonice is installed and running.\n  status: systemctl status ".to_owned().concat(
        SERVICE_NAME,
    ).concat("\n  logs:   journalctl -u ").concat(SERVICE_NAME).concat(" -f");
    proof {
        let view = |a: String| a@;
        assert(reload@.map_values(view) == seq!["daemon-reload"@]);
        assert(enable@.map_values(view) == seq!["enable"@, "--now"@, SERVICE_NAME@]);
    }
    let mut service: Vec<Step> = Vec::new();
    service.push(Step::Systemctl { args: reload });
    service.push(Step::Systemctl { args: enable });
    service.push(Step::Say { line });
    assert(models(service@) == seq![
        StepModel::Systemctl { args: seq!["daemon-reload"@] },
        StepModel::Systemctl { args: seq!["enable"@, "--now"@, SERVICE_NAME@] },
        StepModel::Say { line: farewell() },
    ]);

    let mut plan: Vec<Phase> = Vec::new();
    plan.push(Phase::InstallSelf);
    plan.push(Phase::Steps(unit));
    plan.push(Phase::InstallConfig);
    plan.push(Phase::Steps(service));
    assert(plan@.map_values(|p: Phase| p@) == phases());
    Ok(plan)
}

/// Whether two paths are the same, byte for byte.
fn same_path(a: &[u8], b: &[u8]) -> (same: bool)
    ensures
        same == (a@ == b@),
{
    if a.len() != b.len() {
        return false;
    }
    let mut at: usize = 0;
    while at < a.len()
        invariant
            at <= a@.len(),
            a@.len() == b@.len(),
            forall|i: int| 0 <= i < at ==> a@[i] == b@[i],
        decreases a@.len() - at,
    {
        if a[at] != b[at] {
            return false;
        }
        at = at + 1;
    }
    assert(a@ =~= b@);
    true
}

/// Copies the running binary to [`BIN_DEST`], unless it already runs from
/// there: copying a file onto itself truncates it. `exe` is its path as shown to
/// the user; `exe_real` and `dest_real` are its path and [`BIN_DEST`] with every
/// symlink resolved, where that could be done.
pub fn install_self(exe: &str, exe_real: Option<&[u8]>, dest_real: Option<&[u8]>) -> (steps: Vec<
    Step,
>)
    ensures
        models(steps@) == self_steps(exe@, already_installed(exe_real, dest_real)),
{
    let installed = match (exe_real, dest_real) {
        (Some(a), Some(b)) => same_path(a, b),
        _ => false,
    };
    let mut steps: Vec<Step> = Vec::new();
    if installed {
        steps.push(
            Step::Say {
                line: BIN_DEST.to_owned().concat(
                    " is already the running binary; leaving it in place",
                ),
            },
        );
        return steps;
    }
    steps.push(Step::CreateParent { path: BIN_DEST.to_owned() });
    steps.push(Step::CopySelf { to: BIN_DEST.to_owned() });
    steps.push(Step::SetMode { path: BIN_DEST.to_owned(), mode: BIN_MODE });
    steps.push(
        Step::Say { line: "installed ".to_owned().concat(exe).concat(" -> ").concat(BIN_DEST) },
    );
    steps
}

/// Writes the default config, but never clobbers one the user already has.
pub fn install_config(exists: bool) -> (steps: Vec<Step>)
    ensures
        models(steps@) == config_steps(exists),
{
    if exists {
        let mut steps: Vec<Step> = Vec::new();
        steps.push(
            Step::Say { line: CONFIG_DEST.to_owned().concat(" already exists; keeping it") },
        );
        return steps;
    }
    let mut steps = write_file(CONFIG_DEST, schema::DEFAULT_CONFIG, FILE_MODE);
    let ghost file = models(steps@);
    steps.push(Step::Say { line: "wrote default config ".to_owned().concat(CONFIG_DEST) });
    assert(models(steps@) == file.push(
        StepModel::Say { line: "wrote default config "@ + CONFIG_DEST@ },
    ));
    steps
}

/// Writes a file with a mode, into a directory that may not exist yet.
pub fn write_file(path: &str, contents: &str, mode: u32) -> (steps: Vec<Step>)
    ensures
        models(steps@) == file_steps(path@, contents@, mode),
{
    let mut steps: Vec<Step> = Vec::new();
    steps.push(Step::CreateParent { path: path.to_owned() });
    steps.push(Step::Write { path: path.to_owned(), contents: contents.to_owned() });
    steps.push(Step::SetMode { path: path.to_owned(), mode });
    steps
}

/// The words of `args` with one space between them.
pub open spec fn spaced(args: Seq<Seq<char>>) -> Seq<char>
    decreases args.len(),
{
    if args.len() == 0 {
        Seq::empty()
    } else if args.len() == 1 {
        args[0]
    } else {
        spaced(args.drop_last()) + " "@ + args.last()
    }
}

/// Judges a run of systemctl with `args`: a failure is reported with the exit
/// status as text.
pub fn systemctl(args: &Vec<String>, success: bool, status: &str) -> (outcome: Result<(), String>)
    ensures
        match outcome {
            Ok(()) => success,
            Err(message) => !success && message@ == "systemctl "@ + spaced(
                args@.map_values(|a: String| a@),
            ) + " failed ("@ + status@ + ")"@,
        },
{
    if success {
        return Ok(());
    }
    let ghost words = args@.map_values(|a: String| a@);
    let mut joined: String = String::new();
    let mut at: usize = 0;
    assert(words.take(0).len() == 0);
    while at < args.len()
        invariant
            at <= args@.len(),
            words == args@.map_values(|a: String| a@),
            joined@ == spaced(words.take(at as int)),
        decreases args@.len() - at,
    {
        let ghost longer = words.take(at + 1);
        assert(longer.drop_last() == words.take(at as int) && longer.last() == args@[at as int]@);
        if at > 0 {
            joined.append(" ");
            joined.append(args[at].as_str());
        } else {
            joined = args[at].clone();
        }
        at = at + 1;
    }
    assert(words.take(at as int) == words);
    Err("systemctl ".to_owned().concat(joined.as_str()).concat(" failed (").concat(status).concat(")"))
}

/// What is to be done next.
#[derive(Debug)]
pub enum Next {
    /// Find the running binary, and go on with [`Installation::binary_found`].
    FindBinary,
    /// Look for the config, and go on with [`Installation::config_found`].
    FindConfig,
    /// Take this step.
    Take(Step),
    /// Nothing more.
    Over,
}

/// What a [`Next`] says.
pub ghost enum NextModel {
    FindBinary,
    FindConfig,
    Take { step: StepModel },
    Over,
}

impl View for Next {
    type V = NextModel;

    open spec fn view(&self) -> NextModel {
        match *self {
            Next::FindBinary => NextModel::FindBinary,
            Next::FindConfig => NextModel::FindConfig,
            Next::Take(step) => NextModel::Take { step: step@ },
            Next::Over => NextModel::Over,
        }
    }
}

/// What of an installation is still to be done: some steps, and then some phases.
pub ghost struct Pending {
    pub steps: Seq<StepModel>,
    pub phases: Seq<PhaseModel>,
}

/// Nothing to be done.
pub open spec fn nothing() -> Pending {
    Pending { steps: Seq::empty(), phases: Seq::empty() }
}

/// What comes next, and what is then still to be done; `ok` says whether what came
/// before succeeded. After a failure there is nothing more.
pub open spec fn proceed(pending: Pending, ok: bool) -> (Pending, NextModel)
    decreases pending.phases.len(),
{
    if !ok {
        (nothing(), NextModel::Over)
    } else if pending.steps.len() > 0 {
        (
            Pending { steps: pending.steps.drop_first(), phases: pending.phases },
            NextModel::Take { step: pending.steps[0] },
        )
    } else if pending.phases.len() > 0 {
        let phases = pending.phases.drop_first();
        match pending.phases[0] {
            PhaseModel::InstallSelf => (
                Pending { steps: pending.steps, phases },
                NextModel::FindBinary,
            ),
            PhaseModel::InstallConfig => (
                Pending { steps: pending.steps, phases },
                NextModel::FindConfig,
            ),
            PhaseModel::Steps { steps } => proceed(Pending { steps, phases }, true),
        }
    } else {
        (nothing(), NextModel::Over)
    }
}

/// An installation under way.
pub struct Installation {
    steps: Vec<Step>,
    phases: Vec<Phase>,
}

impl View for Installation {
    type V = Pending;

    closed spec fn view(&self) -> Pending {
        Pending { steps: models(self.steps@), phases: self.phases@.map_values(|p: Phase| p@) }
    }
}

impl Installation {
    /// An installation with all of its phases to be done.
    pub fn new(phases: Vec<Phase>) -> (installation: Installation)
        ensures
            installation@ == (Pending {
                steps: Seq::empty(),
                phases: phases@.map_values(|p: Phase| p@),
            }),
    {
        let installation = Installation { steps: Vec::new(), phases };
        assert(models(installation.steps@) == Seq::<StepModel>::empty());
        installation
    }

    /// What comes next; `ok` says whether what came before succeeded.
    pub fn next(&mut self, ok: bool) -> (next: Next)
        ensures
            (final(self)@, next@) == proceed(old(self)@, ok),
        decreases old(self)@.phases.len(),
    {
        let ghost before = self@;
        if !ok {
            self.steps = Vec::new();
            self.phases = Vec::new();
            assert(self@.steps == nothing().steps && self@.phases == nothing().phases);
            return Next::Over;
        }
        if self.steps.len() > 0 {
            let step = self.steps.remove(0);
            assert(self@.steps == before.steps.drop_first());
            return Next::Take(step);
        }
        if self.phases.len() > 0 {
            let phase = self.phases.remove(0);
            assert(self@.phases == before.phases.drop_first());
            assert(before.phases[0] == phase@);
            return match phase {
                Phase::InstallSelf => Next::FindBinary,
                Phase::InstallConfig => Next::FindConfig,
                Phase::Steps(steps) => {
                    self.steps = steps;
                    self.next(true)
                },
            };
        }
        assert(self@.steps == nothing().steps && self@.phases == nothing().phases);
        Next::Over
    }

    /// Goes on with the steps of [`install_self`].
    pub fn binary_found(&mut self, exe: &str, exe_real: Option<&[u8]>, dest_real: Option<&[u8]>)
        ensures
            final(self)@ == found(
                old(self)@,
                self_steps(exe@, already_installed(exe_real, dest_real)),
            ),
    {
        let mut steps = install_self(exe, exe_real, dest_real);
        let ghost first = steps@;
        let ghost rest = self.steps@;
        steps.append(&mut self.steps);
        self.steps = steps;
        assert(models(self.steps@) == models(first) + models(rest));
    }

    /// Goes on with the steps of [`install_config`].
    pub fn config_found(&mut self, exists: bool)
        ensures
            final(self)@ == found(old(self)@, config_steps(exists)),
    {
        let mut steps = install_config(exists);
        let ghost first = steps@;
        let ghost rest = self.steps@;
        steps.append(&mut self.steps);
        self.steps = steps;
        assert(models(self.steps@) == models(first) + models(rest));
    }
}

/// What is to be done once `steps` have been found to come next.
pub open spec fn found(pending: Pending, steps: Seq<StepModel>) -> Pending {
    Pending { steps: steps + pending.steps, phases: pending.phases }
}

/// The steps of phases, one after the other, where those of the two phases that
/// depend on what is found are `binary` and `config`.
pub open spec fn steps_of(
    phases: Seq<PhaseModel>,
    binary: Seq<StepModel>,
    config: Seq<StepModel>,
) -> Seq<StepModel>
    decreases phases.len(),
{
    if phases.len() == 0 {
        Seq::empty()
    } else {
        let first = match phases[0] {
            PhaseModel::InstallSelf => binary,
            PhaseModel::InstallConfig => config,
            PhaseModel::Steps { steps } => steps,
        };
        first + steps_of(phases.drop_first(), binary, config)
    }
}

/// All steps that are still to be taken.
pub open spec fn remaining(
    pending: Pending,
    binary: Seq<StepModel>,
    config: Seq<StepModel>,
) -> Seq<StepModel> {
    pending.steps + steps_of(pending.phases, binary, config)
}

/// A failure ends the installation: nothing comes next, then or ever after.
pub proof fn law_nothing_follows_a_failure(pending: Pending, ok: bool)
    ensures
        proceed(pending, false) == (nothing(), NextModel::Over),
        proceed(nothing(), ok) == (nothing(), NextModel::Over),
{
}

/// While all goes well every step is taken, once and in order: the one that comes
/// next is the first that remains, what is found takes its place, and the
/// installation is over only when no step remains.
pub proof fn law_every_step_is_taken_in_order(
    pending: Pending,
    binary: Seq<StepModel>,
    config: Seq<StepModel>,
)
    ensures
        ({
            let (after, next) = proceed(pending, true);
            let left = remaining(pending, binary, config);
            match next {
                NextModel::Take { step } => left == seq![step] + remaining(after, binary, config),
                NextModel::FindBinary => left == remaining(found(after, binary), binary, config),
                NextModel::FindConfig => left == remaining(found(after, config), binary, config),
                NextModel::Over => left.len() == 0,
            }
        }),
    decreases pending.phases.len(),
{
    let (after, next) = proceed(pending, true);
    if pending.steps.len() > 0 {
        assert(seq![pending.steps[0]] + pending.steps.drop_first() == pending.steps);
        assert(remaining(pending, binary, config) == seq![pending.steps[0]] + remaining(
            after,
            binary,
            config,
        ));
    } else if pending.phases.len() > 0 {
        let phases = pending.phases.drop_first();
        match pending.phases[0] {
            PhaseModel::Steps { steps } => {
                let opened = Pending { steps, phases };
                law_every_step_is_taken_in_order(opened, binary, config);
                assert(remaining(pending, binary, config) == remaining(opened, binary, config));
            },
            PhaseModel::InstallSelf => {
                assert(remaining(pending, binary, config) == remaining(
                    found(after, binary),
                    binary,
                    config,
                ));
            },
            PhaseModel::InstallConfig => {
                assert(remaining(pending, binary, config) == remaining(
                    found(after, config),
                    binary,
                    config,
                ));
            },
        }
    }
}

/// Whether a step creates or changes a file or a directory.
pub open spec fn changes_files(step: StepModel) -> bool {
    step is CreateParent || step is CopySelf || step is Write || step is SetMode
}

/// Whether there is a step `i` and it sets the mode of the file at `path`.
pub open spec fn sets_mode(steps: Seq<StepModel>, i: int, path: Seq<char>) -> bool {
    &&& i < steps.len()
    &&& steps[i] matches StepModel::SetMode { path: p, .. }
    &&& p == path
}

/// Whether the step after `i` sets the mode of the file that step `i` wrote.
pub open spec fn mode_follows(steps: Seq<StepModel>, i: int) -> bool {
    match steps[i] {
        StepModel::CopySelf { to } => sets_mode(steps, i + 1, to),
        StepModel::Write { path, .. } => sets_mode(steps, i + 1, path),
        _ => true,
    }
}

/// A config that the user already has is never touched.
pub proof fn law_existing_config_is_kept(i: int)
    requires
        0 <= i < config_steps(true).len(),
    ensures
        !changes_files(config_steps(true)[i]),
{
}

/// The installed binary is never copied onto itself.
pub proof fn law_binary_is_not_copied_onto_itself(exe: Seq<char>, i: int)
    requires
        0 <= i < self_steps(exe, true).len(),
    ensures
        !changes_files(self_steps(exe, true)[i]),
{
}

/// Every file that is written gets its mode at once.
pub proof fn law_every_file_gets_its_mode(
    exe: Seq<char>,
    installed: bool,
    exists: bool,
    path: Seq<char>,
    contents: Seq<char>,
    mode: u32,
    i: int,
)
    ensures
        0 <= i < self_steps(exe, installed).len() ==> mode_follows(self_steps(exe, installed), i),
        0 <= i < config_steps(exists).len() ==> mode_follows(config_steps(exists), i),
        0 <= i < file_steps(path, contents, mode).len() ==> mode_follows(
            file_steps(path, contents, mode),
            i,
        ),
{
}

/// The service is enabled last: after the binary, the unit and the config are in
/// place, and after systemd has been told to read its units again.
pub proof fn law_service_is_enabled_last()
    ensures
        phases().len() == 4,
        phases()[0] is InstallSelf,
        phases()[1] matches PhaseModel::Steps { steps } && steps[1] == (StepModel::Write {
            path: UNIT_DEST@,
            contents: SERVICE@,
        }),
        phases()[2] is InstallConfig,
        phases()[3] matches PhaseModel::Steps { steps } && steps[0] == (StepModel::Systemctl {
            args: seq!["daemon-reload"@],
        }) && steps[1] == (StepModel::Systemctl {
            args: seq!["enable"@, "--now"@, SERVICE_NAME@],
        }),
{
}

/// The running binary is copied, and made executable, unless both real paths are
/// known and are the same byte for byte; there it is left in place. `steps` are those
/// of [`install_self`].
pub proof fn law_binary_is_copied_unless_in_place(
    exe: Seq<char>,
    exe_real: Option<&[u8]>,
    dest_real: Option<&[u8]>,
    steps: Seq<StepModel>,
)
    requires
        steps == self_steps(exe, already_installed(exe_real, dest_real)),
    ensures
        !(exe_real is Some && dest_real is Some && exe_real->0@ == dest_real->0@) ==> {
            &&& steps.len() == 4
            &&& steps[0] == (StepModel::CreateParent { path: "/usr/local/bin/autonice"@ })
            &&& steps[1] == (StepModel::CopySelf { to: "/usr/local/bin/autonice"@ })
            &&& steps[2] == (StepModel::SetMode { path: "/usr/local/bin/autonice"@, mode: 0o755 })
            &&& steps[3] == (StepModel::Say {
                line: "installed "@ + exe + " -> "@ + "/usr/local/bin/autonice"@,
            })
        },
        exe_real is Some && dest_real is Some && exe_real->0@ == dest_real->0@ ==> {
            &&& steps.len() == 1
            &&& steps[0] is Say
        },
{
}

/// A config that is not there is written, with the default's text, and made readable;
/// one that is there is left as it is.
pub proof fn law_config_is_written_unless_there(exists: bool)
    ensures
        exists ==> config_steps(exists).len() == 1 && config_steps(exists)[0] is Say,
        !exists ==> {
            &&& config_steps(exists).len() == 4
            &&& config_steps(exists)[0] == (StepModel::CreateParent {
                path: "/etc/autonice.toml"@,
            })
            &&& config_steps(exists)[1] == (StepModel::Write {
                path: "/etc/autonice.toml"@,
                contents: schema::DEFAULT_CONFIG@,
            })
            &&& config_steps(exists)[2] == (StepModel::SetMode {
                path: "/etc/autonice.toml"@,
                mode: 0o644,
            })
            &&& config_steps(exists)[3] is Say
        },
{
}

/// A file is written into a directory that is there by then, and gets the mode that
/// was asked for.
pub proof fn law_file_is_written(path: Seq<char>, contents: Seq<char>, mode: u32)
    ensures
        file_steps(path, contents, mode).len() == 3,
        file_steps(path, contents, mode)[0] == (StepModel::CreateParent { path }),
        file_steps(path, contents, mode)[1] == (StepModel::Write { path, contents }),
        file_steps(path, contents, mode)[2] == (StepModel::SetMode { path, mode }),
{
}

/// The whole installation, step by step: the binary; the unit; the config; systemd is
/// told to read its units again; the service is enabled and started; and the user is
/// told.
pub proof fn law_whole_installation(binary: Seq<StepModel>, config: Seq<StepModel>)
    ensures
        steps_of(phases(), binary, config) == binary + seq![
            StepModel::CreateParent { path: "/etc/systemd/system/autonice.service"@ },
            StepModel::Write { path: "/etc/systemd/system/autonice.service"@, contents: SERVICE@ },
            StepModel::SetMode { path: "/etc/systemd/system/autonice.service"@, mode: 0o644 },
            StepModel::Say { line: "wrote "@ + "/etc/systemd/system/autonice.service"@ },
        ] + config + seq![
            StepModel::Systemctl { args: seq!["daemon-reload"@] },
            StepModel::Systemctl { args: seq!["enable"@, "--now"@, "autonice"@] },
            StepModel::Say { line: farewell() },
        ],
{
    reveal_with_fuel(steps_of, 5);
    let all = phases();
    let unit = all[1]->steps;
    let service = all[3]->steps;
    assert(all.drop_first().drop_first().drop_first().drop_first().len() == 0);
    assert(all.drop_first()[0] == all[1]);
    assert(all.drop_first().drop_first()[0] == all[2]);
    assert(all.drop_first().drop_first().drop_first()[0] == all[3]);
    assert(steps_of(all, binary, config) == binary + (unit + (config + (service + Seq::<
        StepModel,
    >::empty()))));
    assert(unit == seq![
        StepModel::CreateParent { path: "/etc/systemd/system/autonice.service"@ },
        StepModel::Write { path: "/etc/systemd/system/autonice.service"@, contents: SERVICE@ },
        StepModel::SetMode { path: "/etc/systemd/system/autonice.service"@, mode: 0o644 },
        StepModel::Say { line: "wrote "@ + "/etc/systemd/system/autonice.service"@ },
    ]);
    assert(steps_of(all, binary, config) =~= binary + unit + config + service);
}

/// The steps of phases are those of the first and then those of the rest, and steps
/// that were found come before all others.
pub proof fn law_steps_come_in_the_order_of_the_phases(
    steps: Seq<StepModel>,
    rest: Seq<PhaseModel>,
    binary: Seq<StepModel>,
    config: Seq<StepModel>,
    pending: Pending,
)
    ensures
        steps_of(Seq::empty(), binary, config) == Seq::<StepModel>::empty(),
        steps_of(seq![PhaseModel::Steps { steps }] + rest, binary, config) == steps + steps_of(
            rest,
            binary,
            config,
        ),
        steps_of(seq![PhaseModel::InstallSelf] + rest, binary, config) == binary + steps_of(
            rest,
            binary,
            config,
        ),
        steps_of(seq![PhaseModel::InstallConfig] + rest, binary, config) == config + steps_of(
            rest,
            binary,
            config,
        ),
        remaining(found(pending, steps), binary, config) == steps + remaining(
            pending,
            binary,
            config,
        ),
{
    assert((seq![PhaseModel::Steps { steps }] + rest).drop_first() == rest);
    assert((seq![PhaseModel::InstallSelf] + rest).drop_first() == rest);
    assert((seq![PhaseModel::InstallConfig] + rest).drop_first() == rest);
    assert(remaining(found(pending, steps), binary, config) =~= steps + remaining(
        pending,
        binary,
        config,
    ));
}

/// Words are set apart by one space, and by nothing else.
pub proof fn law_spaced(args: Seq<Seq<char>>, word: Seq<char>)
    ensures
        spaced(Seq::empty()) == Seq::<char>::empty(),
        spaced(seq![word]) == word,
        args.len() > 0 ==> spaced(args.push(word)) == spaced(args).push(' ') + word,
{
    reveal_strlit(" ");
    assert(args.push(word).drop_last() == args);
    assert(" "@ == seq![' ']);
    if args.len() > 0 {
        assert(spaced(args.push(word)) =~= spaced(args).push(' ') + word);
    }
}

/// A step says what it holds.
pub proof fn law_step_says_what_it_holds(
    path: String,
    contents: String,
    mode: u32,
    args: Vec<String>,
    i: int,
)
    ensures
        (Step::CreateParent { path })@ == (StepModel::CreateParent { path: path@ }),
        (Step::CopySelf { to: path })@ == (StepModel::CopySelf { to: path@ }),
        (Step::Write { path, contents })@ == (StepModel::Write {
            path: path@,
            contents: contents@,
        }),
        (Step::SetMode { path, mode })@ == (StepModel::SetMode { path: path@, mode }),
        (Step::Say { line: path })@ == (StepModel::Say { line: path@ }),
        (Step::Systemctl { args })@ matches StepModel::Systemctl { args: said } && said.len()
            == args@.len() && (0 <= i < said.len() ==> said[i] == args@[i]@),
{
}

/// Steps and phases say what each of them says, in its place.
pub proof fn law_steps_say_what_each_says(steps: Vec<Step>, i: int)
    ensures
        models(steps@).len() == steps@.len(),
        0 <= i < steps@.len() ==> models(steps@)[i] == steps@[i]@,
        Phase::Steps(steps)@ == (PhaseModel::Steps { steps: models(steps@) }),
        Phase::InstallSelf@ == PhaseModel::InstallSelf,
        Phase::InstallConfig@ == PhaseModel::InstallConfig,
        0 <= i < steps@.len() ==> Next::Take(steps@[i])@ == (NextModel::Take { step: steps@[i]@ }),
        Next::Over@ == NextModel::Over,
        Next::FindBinary@ == NextModel::FindBinary,
        Next::FindConfig@ == NextModel::FindConfig,
{
}

/// The unit starts the binary where it is installed, with no capability but those to
/// load the probes and to renice, and belongs to the machine's normal state.
pub proof fn law_unit_runs_the_installed_binary()
    ensures
        text::occurs_in("ExecStart=/usr/local/bin/autonice\n"@, SERVICE@),
        text::occurs_in("CapabilityBoundingSet=CAP_BPF CAP_PERFMON CAP_SYS_NICE\n"@, SERVICE@),
        text::occurs_in("WantedBy=multi-user.target\n"@, SERVICE@),
{
    reveal_strlit("[Unit]\nDescription=autonice: eBPF-driven automatic renicing\nDocumentation=man:setpriority(2)\n\n[Service]\nType=simple\nExecStart=/usr/local/bin/autonice\nRestart=on-failure\nAmbientCapabilities=CAP_BPF CAP_PERFMON CAP_SYS_NICE\nCapabilityBoundingSet=CAP_BPF CAP_PERFMON CAP_SYS_NICE\nNoNewPrivileges=yes\n\n[Install]\nWantedBy=multi-user.target\n");
    reveal_strlit("ExecStart=/usr/local/bin/autonice\n");
    reveal_strlit("CapabilityBoundingSet=CAP_BPF CAP_PERFMON CAP_SYS_NICE\n");
    reveal_strlit("WantedBy=multi-user.target\n");
    assert(SERVICE@.subrange(116, 150) =~= "ExecStart=/usr/local/bin/autonice\n"@);
    assert(text::occurs_at("ExecStart=/usr/local/bin/autonice\n"@, SERVICE@, 116));
    assert(SERVICE@.subrange(222, 277) =~= "CapabilityBoundingSet=CAP_BPF CAP_PERFMON CAP_SYS_NICE\n"@);
    assert(text::occurs_at("CapabilityBoundingSet=CAP_BPF CAP_PERFMON CAP_SYS_NICE\n"@, SERVICE@, 222));
    assert(SERVICE@.subrange(308, 335) =~= "WantedBy=multi-user.target\n"@);
    assert(text::occurs_at("WantedBy=multi-user.target\n"@, SERVICE@, 308));
}

} // verus!
