//! Programs a parent node defines and runs on a child: a named list of
//! commands, kept in a registry and replayed step by step through a backend.
use crate::backend::{obj2, obj3, owned_text};
use crate::command::{CommandEnvelope, CommandResult};
use crate::error::{error_text, CmdError};
use crate::json::{Json, JsonNumber, JsonValue};
use crate::table::Table;
use crate::text::{chars_of, trim, trim_chars};
use vstd::prelude::*;

verus! {

/// A command as a backend is handed it, with the answer it gave: domain,
/// action, arguments and answer.
pub type Exchange = (Seq<char>, Seq<char>, Json, Result<CommandResult, CmdError>);

/// The command in an exchange is `d`/`a` with `args`.
pub open spec fn sent_as(e: Exchange, d: Seq<char>, a: Seq<char>, args: Json) -> bool {
    e.0 == d && e.1 == a && e.2 == args
}

/// The `k`-th exchange handed after `before`.
pub open spec fn exchange_after(before: Seq<Exchange>, after: Seq<Exchange>, k: int) -> Exchange {
    after[before.len() + k]
}

/// Something that carries out commands: the simulated board, real hardware,
/// or a link to another node.
pub trait Backend {
    fn execute(&mut self, command: CommandEnvelope) -> Result<CommandResult, CmdError>;
}

/// A backend, with the account of every command handed to it through this
/// link and the answer it gave.
pub struct BoardLink<B> {
    backend: B,
    log: Ghost<Seq<Exchange>>,
}

impl<B: Backend> BoardLink<B> {
    /// The commands handed to the backend through this link, in order, each
    /// with its answer.
    pub closed spec fn handled(&self) -> Seq<Exchange> {
        self.log@
    }

    pub closed spec fn backend_spec(&self) -> B {
        self.backend
    }

    /// A link to `backend`; nothing handed yet.
    pub fn new(backend: B) -> (l: BoardLink<B>)
        ensures
            l.handled() == Seq::<Exchange>::empty(),
            l.backend_spec() == backend,
    {
        BoardLink { backend, log: Ghost(Seq::empty()) }
    }

    /// Hands a command to the backend and records it with the answer.
    pub fn execute(&mut self, command: CommandEnvelope) -> (r: Result<CommandResult, CmdError>)
        ensures
            final(self).handled() == old(self).handled().push((command.domain@, command.action@, command.args@, r)),
    {
        let ghost c = (command.domain@, command.action@, command.args@);
        let r = self.backend.execute(command);
        self.log = Ghost(self.log@.push((c.0, c.1, c.2, r)));
        r
    }

    /// The backend.
    pub fn backend(&self) -> (b: &B)
        ensures
            *b == self.backend_spec(),
    {
        &self.backend
    }

    /// The backend, the link given up.
    pub fn into_backend(self) -> (b: B)
        ensures
            b == self.backend_spec(),
    {
        self.backend
    }
}

/// Text that starts with a character other than white space is not blank.
pub proof fn lemma_not_blank(s: Seq<char>)
    requires
        s.len() > 0,
        !crate::text::is_ws(s[0]),
    ensures
        !blank(s),
{
    assert(crate::text::trim_start(s) == s);
    lemma_trim_end_keeps_first(s);
}

proof fn lemma_trim_end_keeps_first(s: Seq<char>)
    requires
        s.len() > 0,
        !crate::text::is_ws(s[0]),
    ensures
        crate::text::trim_end(s).len() > 0,
    decreases s.len(),
{
    if s.len() > 1 && crate::text::is_ws(s.last()) {
        assert(s.drop_last()[0] == s[0]);
        lemma_trim_end_keeps_first(s.drop_last());
    }
}

pub open spec fn blank(s: Seq<char>) -> bool {
    trim(s).len() == 0
}

fn is_blank(s: &str) -> (r: bool)
    ensures
        r == blank(s@),
{
    trim_chars(&chars_of(s)).len() == 0
}

/// Hands one command to a backend; an empty domain or action is refused
/// first.
pub fn dispatch<B: Backend>(backend: &mut BoardLink<B>, domain: &str, action: &str, args: JsonValue) -> (r: Result<CommandResult, CmdError>)
    ensures
        blank(domain@) ==> (r matches Err(CmdError::InvalidCommand(m)) && m@ == "domain must not be empty"@),
        !blank(domain@) && blank(action@) ==> (r matches Err(CmdError::InvalidCommand(m)) && m@
            == "action must not be empty"@),
        blank(domain@) || blank(action@) ==> final(backend).handled() == old(backend).handled(),
        !blank(domain@) && !blank(action@) ==> final(backend).handled() == old(backend).handled().push(
            (domain@, action@, args@, r),
        ),
{
    if is_blank(domain) {
        return Err(CmdError::InvalidCommand(String::from_str("domain must not be empty")));
    }
    if is_blank(action) {
        return Err(CmdError::InvalidCommand(String::from_str("action must not be empty")));
    }
    let command = CommandEnvelope::new(domain, action, args);
    backend.execute(command)
}

#[derive(Debug)]
pub struct ProgramStep {
    pub domain: String,
    pub action: String,
    pub args: JsonValue,
}

#[derive(Debug)]
pub struct ChildProgram {
    pub name: String,
    pub steps: Vec<ProgramStep>,
}

#[derive(Debug)]
pub struct ChildProgramReport {
    pub child_id: String,
    pub program_name: String,
    pub total_steps: usize,
    pub executed_steps: usize,
    pub results: Vec<CommandResult>,
}

/// A step as text and JSON.
pub struct StepView {
    pub domain: Seq<char>,
    pub action: Seq<char>,
    pub args: Json,
}

pub open spec fn step_view(s: ProgramStep) -> StepView {
    StepView { domain: s.domain@, action: s.action@, args: s.args@ }
}

pub open spec fn steps_view(v: Seq<ProgramStep>) -> Seq<StepView> {
    v.map_values(|s: ProgramStep| step_view(s))
}

/// Builds the steps of a program.
#[derive(Debug)]
pub struct ProgramBuilder {
    steps: Vec<ProgramStep>,
}

impl ProgramBuilder {
    pub closed spec fn steps_spec(&self) -> Seq<StepView> {
        steps_view(self.steps@)
    }

    pub fn new() -> (b: ProgramBuilder)
        ensures
            b.steps_spec() == Seq::<StepView>::empty(),
    {
        ProgramBuilder { steps: Vec::new() }
    }

    /// Appends a command.
    pub fn command(&mut self, domain: &str, action: &str, args: JsonValue) -> (r: &mut ProgramBuilder)
        ensures
            r.steps_spec() == old(self).steps_spec().push(
                StepView { domain: domain@, action: action@, args: args@ },
            ),
            *final(self) == *final(r),
    {
        let ghost before = self.steps@;
        let step = ProgramStep { domain: String::from_str(domain), action: String::from_str(action), args };
        self.steps.push(step);
        assert(steps_view(self.steps@) =~= steps_view(before).push(
            StepView { domain: domain@, action: action@, args: args@ },
        ));
        self
    }

    pub fn pin_mode(&mut self, pin: &str, mode: &str) -> (r: &mut ProgramBuilder)
        ensures
            r.steps_spec() == old(self).steps_spec().push(
                StepView {
                    domain: "gpio"@,
                    action: "pin_mode"@,
                    args: Json::Obj(seq![("pin"@, Json::Str(pin@)), ("mode"@, Json::Str(mode@))]),
                },
            ),
            *final(self) == *final(r),
    {
        let args = obj2("pin", owned_text(String::from_str(pin)), "mode", owned_text(String::from_str(mode)));
        self.command("gpio", "pin_mode", args)
    }

    pub fn digital_write(&mut self, pin: &str, level: &str) -> (r: &mut ProgramBuilder)
        ensures
            r.steps_spec() == old(self).steps_spec().push(
                StepView {
                    domain: "gpio"@,
                    action: "digital_write"@,
                    args: Json::Obj(seq![("pin"@, Json::Str(pin@)), ("level"@, Json::Str(level@))]),
                },
            ),
            *final(self) == *final(r),
    {
        let args = obj2("pin", owned_text(String::from_str(pin)), "level", owned_text(String::from_str(level)));
        self.command("gpio", "digital_write", args)
    }

    /// A motor speed; the double is given as its bit pattern.
    pub fn motor_set_speed(&mut self, motor: &str, speed_bits: u64) -> (r: &mut ProgramBuilder)
        ensures
            r.steps_spec() == old(self).steps_spec().push(
                StepView {
                    domain: "motor"@,
                    action: "motor_set_speed"@,
                    args: Json::Obj(seq![("motor"@, Json::Str(motor@)), ("speed"@, Json::Num(JsonNumber::Float(speed_bits)))]),
                },
            ),
            *final(self) == *final(r),
    {
        let args = obj2(
            "motor",
            owned_text(String::from_str(motor)),
            "speed",
            JsonValue::Number(JsonNumber::Float(speed_bits)),
        );
        self.command("motor", "motor_set_speed", args)
    }

    /// A servo angle; the double is given as its bit pattern.
    pub fn servo_write(&mut self, servo: &str, angle_bits: u64) -> (r: &mut ProgramBuilder)
        ensures
            r.steps_spec() == old(self).steps_spec().push(
                StepView {
                    domain: "servo"@,
                    action: "servo_write"@,
                    args: Json::Obj(seq![("servo"@, Json::Str(servo@)), ("angle"@, Json::Num(JsonNumber::Float(angle_bits)))]),
                },
            ),
            *final(self) == *final(r),
    {
        let args = obj2(
            "servo",
            owned_text(String::from_str(servo)),
            "angle",
            JsonValue::Number(JsonNumber::Float(angle_bits)),
        );
        self.command("servo", "servo_write", args)
    }

    pub fn uart_send(&mut self, port: &str, data: &str) -> (r: &mut ProgramBuilder)
        ensures
            r.steps_spec() == old(self).steps_spec().push(
                StepView {
                    domain: "uart"@,
                    action: "uart_send"@,
                    args: Json::Obj(seq![("port"@, Json::Str(port@)), ("data"@, Json::Str(data@))]),
                },
            ),
            *final(self) == *final(r),
    {
        let args = obj2("port", owned_text(String::from_str(port)), "data", owned_text(String::from_str(data)));
        self.command("uart", "uart_send", args)
    }

    pub fn into_steps(self) -> (v: Vec<ProgramStep>)
        ensures
            steps_view(v@) == self.steps_spec(),
    {
        self.steps
    }
}

fn copy_step(s: &ProgramStep) -> (r: ProgramStep)
    ensures
        step_view(r) == step_view(*s),
{
    ProgramStep { domain: s.domain.clone(), action: s.action.clone(), args: s.args.deep_clone() }
}

fn copy_program(p: &ChildProgram) -> (r: ChildProgram)
    ensures
        r.name@ == p.name@,
        steps_view(r.steps@) == steps_view(p.steps@),
{
    let mut steps: Vec<ProgramStep> = Vec::new();
    let mut i: usize = 0;
    while i < p.steps.len()
        invariant
            i <= p.steps.len(),
            steps_view(steps@) == steps_view(p.steps@).subrange(0, i as int),
        decreases p.steps.len() - i,
    {
        let ghost before = steps@;
        let c = copy_step(&p.steps[i]);
        let ghost cv = step_view(c);
        steps.push(c);
        assert(steps@ == before.push(c));
        assert(cv == steps_view(p.steps@)[i as int]);
        assert(steps_view(steps@) =~= steps_view(before).push(cv));
        assert(steps_view(p.steps@).subrange(0, i + 1) =~= steps_view(p.steps@).subrange(0, i as int).push(cv));
        i = i + 1;
    }
    ChildProgram { name: p.name.clone(), steps }
}

/// The defined programs, by name.
pub struct ProgramRegistry {
    programs: Table<ChildProgram>,
}

/// A program as its name and steps.
pub struct ProgramView {
    pub name: Seq<char>,
    pub steps: Seq<StepView>,
}

pub open spec fn program_view(p: ChildProgram) -> ProgramView {
    ProgramView { name: p.name@, steps: steps_view(p.steps@) }
}

impl ProgramRegistry {
    pub closed spec fn programs_spec(&self) -> Map<Seq<char>, ProgramView> {
        self.programs@.map_values(|p: ChildProgram| program_view(p))
    }

    pub fn new() -> (r: ProgramRegistry)
        ensures
            r.programs_spec() == Map::<Seq<char>, ProgramView>::empty(),
    {
        let r = ProgramRegistry { programs: Table::new() };
        assert(r.programs_spec() =~= Map::<Seq<char>, ProgramView>::empty());
        r
    }
}

/// Defines (or replaces) a program under a name that is not blank.
pub fn define_child_program(registry: &mut ProgramRegistry, name: &str, builder: ProgramBuilder) -> (r: Result<ChildProgram, CmdError>)
    ensures
        blank(name@) ==> final(registry).programs_spec() == old(registry).programs_spec(),
        blank(name@) ==> (r matches Err(CmdError::InvalidArgument { key, reason }) && key@ == "name"@
            && reason@ == "program name must not be empty"@),
        !blank(name@) ==> {
            let p = ProgramView { name: name@, steps: builder.steps_spec() };
            &&& final(registry).programs_spec() == old(registry).programs_spec().insert(name@, p)
            &&& r matches Ok(q) && program_view(q) == p
        },
{
    if is_blank(name) {
        return Err(
            CmdError::InvalidArgument {
                key: String::from_str("name"),
                reason: String::from_str("program name must not be empty"),
            },
        );
    }
    let program = ChildProgram { name: String::from_str(name), steps: builder.into_steps() };
    let copy = copy_program(&program);
    let ghost before = registry.programs@;
    registry.programs.insert(String::from_str(name), program);
    assert(registry.programs_spec() =~= old(registry).programs_spec().insert(
        name@,
        ProgramView { name: name@, steps: builder.steps_spec() },
    ));
    Ok(copy)
}

/// A copy of a defined program.
pub fn get_child_program(registry: &ProgramRegistry, name: &str) -> (r: Result<ChildProgram, CmdError>)
    ensures
        registry.programs_spec().contains_key(name@) ==> (r matches Ok(p) && program_view(p)
            == registry.programs_spec()[name@]),
        !registry.programs_spec().contains_key(name@) ==> (r matches Err(CmdError::ProgramNotFound(n))
            && n@ == name@),
{
    match registry.programs.get(name) {
        Some(p) => Ok(copy_program(p)),
        None => Err(CmdError::ProgramNotFound(String::from_str(name))),
    }
}

fn step_json(s: &ProgramStep) -> (r: JsonValue)
    ensures
        r@ == Json::Obj(seq![("domain"@, Json::Str(s.domain@)), ("action"@, Json::Str(s.action@)), ("args"@, s.args@)]),
{
    obj3(
        "domain",
        owned_text(s.domain.clone()),
        "action",
        owned_text(s.action.clone()),
        "args",
        s.args.deep_clone(),
    )
}

pub open spec fn step_json_view(s: StepView) -> Json {
    Json::Obj(seq![("domain"@, Json::Str(s.domain)), ("action"@, Json::Str(s.action)), ("args"@, s.args)])
}

/// The program as JSON, as it is announced to the child.
pub open spec fn program_json(p: ProgramView) -> Json {
    Json::Obj(seq![("name"@, Json::Str(p.name)), ("steps"@, Json::Arr(p.steps.map_values(|s: StepView| step_json_view(s))))])
}

fn program_to_json(p: &ChildProgram) -> (r: JsonValue)
    ensures
        r@ == program_json(program_view(*p)),
{
    let mut items: Vec<JsonValue> = Vec::new();
    let mut i: usize = 0;
    while i < p.steps.len()
        invariant
            i <= p.steps.len(),
            crate::json::items_view(items@) == steps_view(p.steps@).subrange(0, i as int).map_values(
                |s: StepView| step_json_view(s),
            ),
        decreases p.steps.len() - i,
    {
        let ghost before = items@;
        let j = step_json(&p.steps[i]);
        let ghost jv = j@;
        items.push(j);
        assert(items@ == before.push(j));
        assert(items@.drop_last() =~= before);
        assert(crate::json::items_view(items@) =~= crate::json::items_view(before).push(jv));
        assert(jv == step_json_view(steps_view(p.steps@)[i as int]));
        assert(steps_view(p.steps@).subrange(0, i + 1).map_values(|s: StepView| step_json_view(s))
            =~= steps_view(p.steps@).subrange(0, i as int).map_values(|s: StepView| step_json_view(s)).push(jv));
        i = i + 1;
    }
    assert(steps_view(p.steps@).subrange(0, p.steps.len() as int) == steps_view(p.steps@));
    obj2("name", owned_text(p.name.clone()), "steps", JsonValue::Array(items))
}

/// What the child is told of a program before it runs.
pub open spec fn announce_args(child_id: Seq<char>, p: ProgramView) -> Json {
    Json::Obj(seq![("child_id"@, Json::Str(child_id)), ("program"@, program_json(p))])
}

/// A step with a blank domain or action, which is refused before it reaches
/// the backend.
pub open spec fn step_refused(s: StepView) -> bool {
    blank(s.domain) || blank(s.action)
}

/// Why a step with a blank domain or action is refused.
pub open spec fn refusal_text(s: StepView) -> Seq<char> {
    if blank(s.domain) {
        "invalid command: "@ + "domain must not be empty"@
    } else {
        "invalid command: "@ + "action must not be empty"@
    }
}

/// After `before`, the first `n` steps were handed to the backend in order,
/// each answered with `Ok`.
pub open spec fn steps_done(before: Seq<Exchange>, after: Seq<Exchange>, steps: Seq<StepView>, n: int) -> bool {
    &&& 0 <= n <= steps.len()
    &&& after.len() == before.len() + n
    &&& after.subrange(0, before.len() as int) == before
    &&& forall|k: int|
        0 <= k < n ==> {
            &&& sent_as(#[trigger] exchange_after(before, after, k), steps[k].domain, steps[k].action, steps[k].args)
            &&& exchange_after(before, after, k).3 is Ok
        }
}

/// How the steps of `p`, run after `before`, ended: every step handed and
/// answered with `Ok`, the report holding those answers in order; or stopped
/// at step `i`, refused for a blank name or answered with an error, whose
/// text the failure carries.
pub open spec fn steps_outcome(before: Seq<Exchange>, after: Seq<Exchange>, child_id: Seq<char>, p: ProgramView, r: Result<ChildProgramReport, CmdError>) -> bool {
    match r {
        Ok(rep) => {
            &&& steps_done(before, after, p.steps, p.steps.len() as int)
            &&& rep.child_id@ == child_id
            &&& rep.program_name@ == p.name
            &&& rep.total_steps == p.steps.len()
            &&& rep.executed_steps == p.steps.len()
            &&& rep.results@.len() == p.steps.len()
            &&& forall|k: int|
                0 <= k < p.steps.len() ==> exchange_after(before, after, k).3 == Ok::<CommandResult, CmdError>(
                    #[trigger] rep.results@[k],
                )
        },
        Err(CmdError::ProgramExecutionFailed { program, step_index, reason }) => {
            let i = step_index as int;
            &&& program@ == p.name
            &&& i < p.steps.len()
            &&& if step_refused(p.steps[i]) {
                steps_done(before, after, p.steps, i) && reason@ == refusal_text(p.steps[i])
            } else {
                &&& after.len() == before.len() + i + 1
                &&& steps_done(before, after.drop_last(), p.steps, i)
                &&& sent_as(after.last(), p.steps[i].domain, p.steps[i].action, p.steps[i].args)
                &&& after.last().3 matches Err(e) && reason@ == error_text(e)
            }
        },
        Err(_) => false,
    }
}

/// How announcing `p` to `child_id` and running it, after `before`, ended:
/// the announcement is handed first; an error in answer to it is the result,
/// and otherwise the steps run as `steps_outcome` says.
pub open spec fn program_run(before: Seq<Exchange>, after: Seq<Exchange>, child_id: Seq<char>, p: ProgramView, r: Result<ChildProgramReport, CmdError>) -> bool {
    let announced = after[before.len() as int];
    &&& after.len() > before.len()
    &&& after.subrange(0, before.len() as int) == before
    &&& sent_as(announced, "integration"@, "send_child_program"@, announce_args(child_id, p))
    &&& match announced.3 {
        Err(e) => after.len() == before.len() + 1 && r == Err::<ChildProgramReport, CmdError>(e),
        Ok(_) => steps_outcome(before.push(announced), after, child_id, p, r),
    }
}

proof fn lemma_steps_extend(before: Seq<Exchange>, h: Seq<Exchange>, h2: Seq<Exchange>, steps: Seq<StepView>, n: int)
    requires
        steps_done(before, h, steps, n),
        n < steps.len(),
        h2.len() == h.len() + 1,
        h2.drop_last() == h,
        sent_as(h2.last(), steps[n].domain, steps[n].action, steps[n].args),
        h2.last().3 is Ok,
    ensures
        steps_done(before, h2, steps, n + 1),
{
    assert(h2.subrange(0, before.len() as int) =~= h.subrange(0, before.len() as int));
    assert forall|k: int| 0 <= k < n + 1 implies {
        &&& sent_as(#[trigger] exchange_after(before, h2, k), steps[k].domain, steps[k].action, steps[k].args)
        &&& exchange_after(before, h2, k).3 is Ok
    } by {
        if k < n {
            assert(exchange_after(before, h2, k) == h2.drop_last()[before.len() + k]);
            assert(exchange_after(before, h, k) == h[before.len() + k]);
        } else {
            assert(exchange_after(before, h2, k) == h2.last());
        }
    }
}

proof fn lemma_run_prefix(before: Seq<Exchange>, mid: Seq<Exchange>, after: Seq<Exchange>)
    requires
        mid.len() == before.len() + 1,
        mid.subrange(0, before.len() as int) == before,
        after.len() >= mid.len(),
        after.subrange(0, mid.len() as int) == mid,
    ensures
        after[before.len() as int] == mid[before.len() as int],
        after.subrange(0, before.len() as int) == before,
        before.push(after[before.len() as int]) == mid,
{
    assert(after.subrange(0, mid.len() as int)[before.len() as int] == after[before.len() as int]);
    assert(after.subrange(0, before.len() as int) =~= mid.subrange(0, before.len() as int));
    assert(before.push(after[before.len() as int]) =~= mid);
}

/// Announces a program to a child and runs its steps, in order, through the
/// backend. The first step the backend refuses stops the run.
fn execute_program<B: Backend>(backend: &mut BoardLink<B>, registry: &ProgramRegistry, child_id: &str, program_name: &str) -> (r: Result<ChildProgramReport, CmdError>)
    ensures
        !registry.programs_spec().contains_key(program_name@) ==> (r matches Err(
            CmdError::ProgramNotFound(n),
        ) && n@ == program_name@ && final(backend).handled() == old(backend).handled()),
        registry.programs_spec().contains_key(program_name@) ==> program_run(
            old(backend).handled(),
            final(backend).handled(),
            child_id@,
            registry.programs_spec()[program_name@],
            r,
        ),
{
    let program = get_child_program(registry, program_name)?;
    let ghost pv = program_view(program);
    let ghost before = backend.handled();
    let announce = obj2("child_id", owned_text(String::from_str(child_id)), "program", program_to_json(&program));
    proof {
        reveal_strlit("integration");
        reveal_strlit("send_child_program");
        lemma_not_blank("integration"@);
        lemma_not_blank("send_child_program"@);
    }
    let announced = dispatch(backend, "integration", "send_child_program", announce);
    let ghost mid = backend.handled();
    assert(mid.subrange(0, before.len() as int) =~= before);
    match announced {
        Ok(_) => {},
        Err(e) => {
            return Err(e);
        },
    }
    assert(mid =~= before.push(mid[before.len() as int]));
    assert(mid.subrange(0, mid.len() as int) =~= mid);
    let mut results: Vec<CommandResult> = Vec::new();
    let mut i: usize = 0;
    while i < program.steps.len()
        invariant
            i <= program.steps.len(),
            results@.len() == i,
            pv == program_view(program),
            pv.steps.len() == program.steps.len(),
            registry.programs_spec().contains_key(program_name@),
            pv == registry.programs_spec()[program_name@],
            before == old(backend).handled(),
            mid.len() == before.len() + 1,
            mid.subrange(0, before.len() as int) == before,
            sent_as(mid[before.len() as int], "integration"@, "send_child_program"@, announce_args(child_id@, pv)),
            mid[before.len() as int].3 is Ok,
            steps_done(mid, backend.handled(), pv.steps, i as int),
            forall|k: int| 0 <= k < i ==> exchange_after(mid, backend.handled(), k).3 == Ok::<CommandResult, CmdError>(
                #[trigger] results@[k],
            ),
        decreases program.steps.len() - i,
    {
        let step = &program.steps[i];
        let ghost h = backend.handled();
        let ghost sv = pv.steps[i as int];
        assert(sv == step_view(*step));
        let answer = dispatch(backend, step.domain.as_str(), step.action.as_str(), step.args.deep_clone());
        let ghost h2 = backend.handled();
        match answer {
            Ok(res) => {
                proof {
                    assert(h2.drop_last() =~= h);
                    lemma_steps_extend(mid, h, h2, pv.steps, i as int);
                    assert forall|k: int| 0 <= k < i + 1 implies exchange_after(mid, h2, k).3 == Ok::<
                        CommandResult,
                        CmdError,
                    >(#[trigger] results@.push(res)[k]) by {
                        if k < i {
                            assert(exchange_after(mid, h2, k) == h2.drop_last()[mid.len() + k]);
                            assert(exchange_after(mid, h, k) == h[mid.len() + k]);
                        } else {
                            assert(exchange_after(mid, h2, k) == h2.last());
                        }
                    }
                }
                results.push(res);
            },
            Err(err) => {
                let reason = err.message();
                proof {
                    if !step_refused(sv) {
                        assert(h2.drop_last() =~= h);
                        assert(h2.subrange(0, mid.len() as int) =~= h.subrange(0, mid.len() as int));
                    } else {
                        assert(h2 == h);
                    }
                    lemma_run_prefix(before, mid, h2);
                }
                return Err(
                    CmdError::ProgramExecutionFailed {
                        program: program.name.clone(),
                        step_index: i,
                        reason,
                    },
                );
            },
        }
        i = i + 1;
    }
    proof {
        lemma_run_prefix(before, mid, backend.handled());
    }
    let total = program.steps.len();
    let executed = results.len();
    Ok(ChildProgramReport { child_id: String::from_str(child_id), program_name: program.name, total_steps: total, executed_steps: executed, results })
}

/// Runs a program on this node.
pub fn run_child_program<B: Backend>(backend: &mut BoardLink<B>, registry: &ProgramRegistry, name: &str) -> (r: Result<ChildProgramReport, CmdError>)
    ensures
        !registry.programs_spec().contains_key(name@) ==> (r matches Err(CmdError::ProgramNotFound(n)) && n@ == name@
            && final(backend).handled() == old(backend).handled()),
        registry.programs_spec().contains_key(name@) ==> program_run(
            old(backend).handled(),
            final(backend).handled(),
            "local-child"@,
            registry.programs_spec()[name@],
            r,
        ),
{
    execute_program(backend, registry, "local-child", name)
}

/// Sends a program to the child with this id and runs it.
pub fn send_child_program_to<B: Backend>(backend: &mut BoardLink<B>, registry: &ProgramRegistry, child_id: &str, program_name: &str) -> (r: Result<ChildProgramReport, CmdError>)
    ensures
        blank(child_id@) ==> (r matches Err(CmdError::InvalidArgument { key, reason }) && key@ == "child_id"@
            && reason@ == "child_id must not be empty"@),
        !blank(child_id@) && !registry.programs_spec().contains_key(program_name@) ==> (r matches Err(
            CmdError::ProgramNotFound(n),
        ) && n@ == program_name@),
        blank(child_id@) || !registry.programs_spec().contains_key(program_name@) ==> final(backend).handled()
            == old(backend).handled(),
        !blank(child_id@) && registry.programs_spec().contains_key(program_name@) ==> program_run(
            old(backend).handled(),
            final(backend).handled(),
            child_id@,
            registry.programs_spec()[program_name@],
            r,
        ),
{
    if is_blank(child_id) {
        return Err(
            CmdError::InvalidArgument {
                key: String::from_str("child_id"),
                reason: String::from_str("child_id must not be empty"),
            },
        );
    }
    execute_program(backend, registry, child_id, program_name)
}

} // verus!
