//! The program daemon: a registry of named programs, the runs it started,
//! and the answers to its socket requests.
//!
//! Processes, the socket and the registry file stay with the caller; each
//! request is decided here, and the caller carries out what is asked
//! (saving the registry, starting or killing a process) before answering.
use crate::backend::{member, obj1, obj2, obj3, opt_u64_json, opt_uint, owned_text};
use crate::json::{fields_view, items_view, json_view, lemma_items_view, Json, JsonNumber, JsonValue};
use crate::order::{
    lemma_text_lt_asymmetric, lemma_text_lt_irreflexive, lemma_text_lt_total, lemma_text_lt_transitive,
    sorted_distinct, str_lt, strictly_sorted, text_lt,
};
use crate::table::Table;
use crate::text::{chars_of, concat_str, string_of, strings_view, sub_chars};
use vstd::prelude::*;

verus! {

/// A registered program.
#[derive(Debug)]
pub struct ProgramSpec {
    pub name: String,
    pub command: String,
    pub args: Vec<String>,
    pub cwd: Option<String>,
    pub env: Table<String>,
    pub ttl_seconds: Option<u64>,
    pub allow_concurrent: bool,
}

/// A run the daemon started. The process itself stays with the caller,
/// under the run id.
#[derive(Debug)]
pub struct RunningProgram {
    pub run_id: String,
    pub name: String,
    pub command: String,
    pub args: Vec<String>,
    pub started_at_ms: u64,
    pub expires_at_ms: Option<u64>,
    pub pid: u32,
}

/// A request on the daemon's socket.
#[derive(Debug)]
pub enum ApiRequest {
    Ping,
    Register { spec: ProgramSpec },
    Unregister { name: String },
    List,
    Status,
    Run { name: String, ttl_seconds: Option<u64> },
    Stop { name: String },
    RunRaw { spec: ProgramSpec },
}

/// The daemon's answer.
#[derive(Debug)]
pub struct ApiResponse {
    pub ok: bool,
    pub message: String,
    pub data: JsonValue,
}

/// What to do with a request.
#[derive(Debug)]
pub enum RequestOutcome {
    /// Answer at once.
    Reply(ApiResponse),
    /// The registry changed: save it, then answer with `saved_response`.
    SaveRegistry { message: String, data: JsonValue },
    /// Start the program, then record it with `DaemonState::record_start`
    /// (or answer with `spawn_failed`).
    Spawn { spec: ProgramSpec, ttl_seconds: Option<u64> },
    /// Kill these runs, already dropped from the state, then answer.
    Kill { run_ids: Vec<String>, reply: ApiResponse },
}

pub fn ok(message: &str, data: JsonValue) -> (r: ApiResponse)
    ensures
        r.ok,
        r.message@ == message@,
        r.data@ == data@,
{
    ApiResponse { ok: true, message: String::from_str(message), data }
}

pub fn err(message: String) -> (r: ApiResponse)
    ensures
        !r.ok,
        r.message@ == message@,
        r.data@ == Json::Null,
{
    ApiResponse { ok: false, message, data: JsonValue::Null }
}

/// Where the daemon listens unless told otherwise.
pub fn default_socket_path() -> (s: String)
    ensures
        s@ == "/tmp/cmdlibd.sock"@,
{
    String::from_str("/tmp/cmdlibd.sock")
}

/// The registry file under a home directory (`.` without one).
pub fn registry_path_for(home: Option<&str>) -> (s: String)
    ensures
        s@ == (match home {
            Some(h) => h@,
            None => "."@,
        }) + "/.local/share/cmdlibd/registry.json"@,
{
    let base = match home {
        Some(h) => h,
        None => ".",
    };
    concat_str(base, "/.local/share/cmdlibd/registry.json")
}

// ----- environment pairs -----
/// The position of the first `=`.
pub open spec fn first_eq(s: Seq<char>) -> Option<int>
    decreases s.len(),
{
    if s.len() == 0 {
        None
    } else if s[0] == '=' {
        Some(0)
    } else {
        match first_eq(s.drop_first()) {
            Some(i) => Some(i + 1),
            None => None,
        }
    }
}

/// The variables set by `KEY=VALUE` items, a later key replacing an
/// earlier one; none when an item has no `=`.
pub open spec fn env_of(items: Seq<Seq<char>>) -> Option<Map<Seq<char>, Seq<char>>>
    decreases items.len(),
{
    if items.len() == 0 {
        Some(Map::empty())
    } else {
        match (env_of(items.drop_last()), first_eq(items.last())) {
            (Some(m), Some(i)) => Some(m.insert(items.last().subrange(0, i), items.last().subrange(i + 1, items.last().len() as int))),
            _ => None,
        }
    }
}

/// The first item without `=`.
pub open spec fn first_bad(items: Seq<Seq<char>>) -> Option<Seq<char>>
    decreases items.len(),
{
    if items.len() == 0 {
        None
    } else if first_eq(items[0]) is None {
        Some(items[0])
    } else {
        first_bad(items.drop_first())
    }
}

proof fn lemma_first_eq(s: Seq<char>, i: int)
    requires
        0 <= i <= s.len(),
        forall|k: int| 0 <= k < i ==> s[k] != '=',
    ensures
        first_eq(s) == (match first_eq(s.skip(i)) {
            Some(j) => Some(j + i),
            None => None,
        }),
    decreases i,
{
    if i > 0 {
        lemma_first_eq(s.drop_first(), i - 1);
        assert(s.drop_first().skip(i - 1) =~= s.skip(i));
    } else {
        assert(s.skip(0) =~= s);
    }
}

fn find_eq(s: &Vec<char>) -> (r: Option<usize>)
    ensures
        match r {
            Some(i) => first_eq(s@) == Some(i as int) && i < s@.len(),
            None => first_eq(s@) is None,
        },
{
    let mut i: usize = 0;
    while i < s.len()
        invariant
            i <= s.len(),
            forall|k: int| 0 <= k < i ==> s@[k] != '=',
        decreases s.len() - i,
    {
        if s[i] == '=' {
            proof {
                lemma_first_eq(s@, i as int);
                assert(s@.skip(i as int)[0] == '=');
            }
            return Some(i);
        }
        i = i + 1;
    }
    proof {
        lemma_first_eq(s@, i as int);
        assert(s@.skip(i as int).len() == 0);
    }
    None
}

proof fn lemma_first_bad_split(items: Seq<Seq<char>>, i: int)
    requires
        0 <= i < items.len(),
        forall|k: int| 0 <= k < i ==> first_eq(#[trigger] items[k]) is Some,
    ensures
        first_eq(items[i]) is None ==> first_bad(items) == Some(items[i]),
        first_eq(items[i]) is Some ==> first_bad(items) == first_bad(items.skip(i + 1)),
    decreases i,
{
    if i > 0 {
        let rest = items.drop_first();
        assert forall|k: int| 0 <= k < i - 1 implies first_eq(#[trigger] rest[k]) is Some by {
            assert(rest[k] == items[k + 1]);
        }
        lemma_first_bad_split(rest, i - 1);
        assert(rest[i - 1] == items[i]);
        assert(rest.skip(i) =~= items.skip(i + 1));
    } else {
        assert(items.skip(1) =~= items.drop_first());
    }
}

proof fn lemma_env_of_some(items: Seq<Seq<char>>)
    requires
        forall|k: int| 0 <= k < items.len() ==> first_eq(#[trigger] items[k]) is Some,
    ensures
        env_of(items) is Some,
    decreases items.len(),
{
    if items.len() > 0 {
        let front = items.drop_last();
        assert forall|k: int| 0 <= k < front.len() implies first_eq(#[trigger] front[k]) is Some by {
            assert(front[k] == items[k]);
        }
        lemma_env_of_some(front);
        assert(first_eq(items[items.len() - 1]) is Some);
    }
}

proof fn lemma_env_of_none(items: Seq<Seq<char>>, i: int)
    requires
        0 <= i < items.len(),
        first_eq(items[i]) is None,
    ensures
        env_of(items) is None,
    decreases items.len(),
{
    if i < items.len() - 1 {
        lemma_env_of_none(items.drop_last(), i);
    }
}

/// Reads `--env KEY=VALUE` items.
pub fn parse_env_pairs(items: &[String]) -> (r: Result<Table<String>, String>)
    ensures
        match env_of(strings_view(items@)) {
            Some(m) => r matches Ok(t) && t@.map_values(|v: String| v@) == m,
            None => r matches Err(msg) && first_bad(strings_view(items@)) matches Some(bad) && msg@
                == "invalid --env format: "@ + bad + " (expected KEY=VALUE)"@,
        },
{
    let ghost sv = strings_view(items@);
    let mut out: Table<String> = Table::new();
    let mut i: usize = 0;
    assert(out@.map_values(|v: String| v@) =~= Map::<Seq<char>, Seq<char>>::empty());
    while i < items.len()
        invariant
            i <= items.len(),
            sv == strings_view(items@),
            forall|k: int| 0 <= k < i ==> first_eq(#[trigger] sv[k]) is Some,
            env_of(sv.subrange(0, i as int)) == Some(out@.map_values(|v: String| v@)),
        decreases items.len() - i,
    {
        let cs = chars_of(items[i].as_str());
        assert(cs@ == sv[i as int]);
        assert(sv.subrange(0, i + 1).drop_last() =~= sv.subrange(0, i as int));
        match find_eq(&cs) {
            Some(p) => {
                assert(p < cs.len());
                let key = string_of(&sub_chars(&cs, 0, p));
                let value = string_of(&sub_chars(&cs, p + 1, cs.len()));
                let ghost before = out@;
                out.insert(key, value);
                assert(out@.map_values(|v: String| v@) =~= before.map_values(|v: String| v@).insert(
                    cs@.subrange(0, p as int),
                    cs@.subrange(p + 1, cs@.len() as int),
                ));
            },
            None => {
                proof {
                    lemma_first_bad_split(sv, i as int);
                    lemma_env_of_none(sv, i as int);
                }
                let head = concat_str("invalid --env format: ", items[i].as_str());
                return Err(concat_str(head.as_str(), " (expected KEY=VALUE)"));
            },
        }
        i = i + 1;
    }
    assert(sv.subrange(0, items.len() as int) =~= sv);
    Ok(out)
}

// ----- JSON of programs and runs -----
fn strings_json(v: &Vec<String>) -> (r: JsonValue)
    ensures
        r@ == Json::Arr(strings_view(v@).map_values(|s: Seq<char>| Json::Str(s))),
{
    let mut items: Vec<JsonValue> = Vec::new();
    let mut i: usize = 0;
    while i < v.len()
        invariant
            i <= v.len(),
            items_view(items@) == strings_view(v@).subrange(0, i as int).map_values(|s: Seq<char>| Json::Str(s)),
        decreases v.len() - i,
    {
        let ghost before = items@;
        let x = JsonValue::Str(v[i].clone());
        let ghost xv = x@;
        items.push(x);
        assert(items@.drop_last() =~= before);
        assert(items_view(items@) =~= items_view(before).push(xv));
        assert(strings_view(v@).subrange(0, i + 1).map_values(|s: Seq<char>| Json::Str(s)) =~= strings_view(v@).subrange(
            0,
            i as int,
        ).map_values(|s: Seq<char>| Json::Str(s)).push(xv));
        i = i + 1;
    }
    assert(strings_view(v@).subrange(0, v.len() as int) == strings_view(v@));
    JsonValue::Array(items)
}

fn opt_text_json(o: &Option<String>) -> (r: JsonValue)
    ensures
        r@ == (match o {
            Some(s) => Json::Str(s@),
            None => Json::Null,
        }),
{
    match o {
        Some(s) => JsonValue::Str(s.clone()),
        None => JsonValue::Null,
    }
}

/// An environment as it is listed: each name once, in increasing order,
/// with its value.
pub open spec fn env_listed(fs: Seq<(Seq<char>, Json)>, env: Map<Seq<char>, String>) -> bool {
    &&& strictly_sorted(fs.map_values(|f: (Seq<char>, Json)| f.0))
    &&& forall|i: int|
        0 <= i < fs.len() ==> env.contains_key(#[trigger] fs[i].0) && fs[i].1 == Json::Str(env[fs[i].0]@)
    &&& forall|k: Seq<char>| #[trigger] env.contains_key(k) ==> exists|i: int| 0 <= i < fs.len() && fs[i].0 == k
}

fn env_json(env: &Table<String>) -> (r: JsonValue)
    ensures
        r@ matches Json::Obj(fs) && env_listed(fs, env@),
{
    let keys = env.keys();
    let sorted = sorted_distinct(&keys);
    let ghost ks = strings_view(sorted@);
    proof {
        assert forall|k: Seq<char>| #[trigger] env@.contains_key(k) implies ks.contains(k) by {
            let j = choose|j: int| 0 <= j < keys@.len() && keys@[j]@ == k;
            assert(strings_view(keys@)[j] == k);
            assert(strings_view(keys@).contains(k));
        }
        assert forall|q: int| 0 <= q < ks.len() implies #[trigger] env@.contains_key(ks[q]) by {
            assert(ks.contains(ks[q]));
            let x = choose|x: int| 0 <= x < strings_view(keys@).len() && strings_view(keys@)[x] == ks[q];
            assert(keys@[x]@ == ks[q]);
        }
    }
    let mut fields: Vec<(String, JsonValue)> = Vec::new();
    let mut i: usize = 0;
    while i < sorted.len()
        invariant
            i <= sorted.len(),
            ks == strings_view(sorted@),
            forall|q: int| 0 <= q < ks.len() ==> #[trigger] env@.contains_key(ks[q]),
            fields_view(fields@).len() == i,
            forall|q: int|
                0 <= q < i ==> #[trigger] fields_view(fields@)[q] == (ks[q], Json::Str(env@[ks[q]]@)),
        decreases sorted.len() - i,
    {
        assert(sorted@[i as int]@ == ks[i as int]);
        match env.get(sorted[i].as_str()) {
            Some(v) => {
                let ghost before = fields_view(fields@);
                member(&mut fields, sorted[i].as_str(), JsonValue::Str(v.clone()));
                assert(fields_view(fields@) == before.push((ks[i as int], Json::Str(env@[ks[i as int]]@))));
            },
            None => {
                assert(false);
            },
        }
        i = i + 1;
    }
    proof {
        let fs = fields_view(fields@);
        assert(fs.map_values(|f: (Seq<char>, Json)| f.0) =~= ks);
        assert forall|k: Seq<char>| #[trigger] env@.contains_key(k) implies exists|q: int|
            0 <= q < fs.len() && fs[q].0 == k by {
            assert(ks.contains(k));
            let q = choose|q: int| 0 <= q < ks.len() && ks[q] == k;
            assert(fs[q].0 == k);
        }
    }
    JsonValue::Object(fields)
}

/// How a program is listed: its name, command, arguments, directory,
/// environment, time to live and whether runs may overlap, in that order.
pub open spec fn program_json(j: Json, spec: ProgramSpec) -> bool {
    j matches Json::Obj(fs) && fs.len() == 7 && fs[0] == ("name"@, Json::Str(spec.name@)) && fs[1] == (
        "command"@,
        Json::Str(spec.command@),
    ) && fs[2] == ("args"@, Json::Arr(strings_view(spec.args@).map_values(|s: Seq<char>| Json::Str(s))))
        && fs[3] == (
        "cwd"@,
        match spec.cwd {
            Some(c) => Json::Str(c@),
            None => Json::Null,
        },
    ) && fs[4].0 == "env"@ && (fs[4].1 matches Json::Obj(es) && env_listed(es, spec.env@)) && fs[5] == (
        "ttl_seconds"@,
        opt_u64_json(spec.ttl_seconds),
    ) && fs[6] == ("allow_concurrent"@, Json::Bool(spec.allow_concurrent))
}

pub fn spec_json(spec: &ProgramSpec) -> (r: JsonValue)
    ensures
        program_json(r@, *spec),
{
    let mut d: Vec<(String, JsonValue)> = Vec::new();
    member(&mut d, "name", JsonValue::Str(spec.name.clone()));
    member(&mut d, "command", JsonValue::Str(spec.command.clone()));
    member(&mut d, "args", strings_json(&spec.args));
    member(&mut d, "cwd", opt_text_json(&spec.cwd));
    member(&mut d, "env", env_json(&spec.env));
    member(&mut d, "ttl_seconds", opt_uint(spec.ttl_seconds));
    member(&mut d, "allow_concurrent", JsonValue::Bool(spec.allow_concurrent));
    JsonValue::Object(d)
}

/// A run as it is reported: how long it has run and how long it has left.
pub open spec fn uptime_of(r: RunningProgram, now_ms: u64) -> u64 {
    if now_ms >= r.started_at_ms {
        (now_ms - r.started_at_ms) as u64
    } else {
        0
    }
}

pub open spec fn remaining_of(r: RunningProgram, now_ms: u64) -> Option<u64> {
    match r.expires_at_ms {
        Some(d) => if d >= now_ms {
            Some((d - now_ms) as u64)
        } else {
            None
        },
        None => None,
    }
}

/// The report of a run at `now_ms`: its id, name, pid, command, arguments,
/// uptime and the time it has left, in that order.
pub open spec fn run_json(j: Json, r: RunningProgram, now_ms: u64) -> bool {
    j matches Json::Obj(fs) && fs.len() == 7 && fs[0] == ("run_id"@, Json::Str(r.run_id@)) && fs[1] == (
        "name"@,
        Json::Str(r.name@),
    ) && fs[2] == ("pid"@, Json::Num(JsonNumber::UInt(r.pid as u64))) && fs[3] == (
        "command"@,
        Json::Str(r.command@),
    ) && fs[4] == ("args"@, Json::Arr(strings_view(r.args@).map_values(|s: Seq<char>| Json::Str(s)))) && fs[5] == ("uptime_ms"@, Json::Num(JsonNumber::UInt(uptime_of(r, now_ms))))
        && fs[6] == ("expires_in_ms"@, opt_u64_json(remaining_of(r, now_ms)))
}

pub fn running_json(r: &RunningProgram, now_ms: u64) -> (j: JsonValue)
    ensures
        run_json(j@, *r, now_ms),
{
    let uptime = now_ms.saturating_sub(r.started_at_ms);
    let remaining: Option<u64> = match r.expires_at_ms {
        Some(d) => if d >= now_ms {
            Some(d - now_ms)
        } else {
            None
        },
        None => None,
    };
    let mut d: Vec<(String, JsonValue)> = Vec::new();
    member(&mut d, "run_id", JsonValue::Str(r.run_id.clone()));
    member(&mut d, "name", JsonValue::Str(r.name.clone()));
    member(&mut d, "pid", JsonValue::Number(JsonNumber::UInt(r.pid as u64)));
    member(&mut d, "command", JsonValue::Str(r.command.clone()));
    member(&mut d, "args", strings_json(&r.args));
    member(&mut d, "uptime_ms", JsonValue::Number(JsonNumber::UInt(uptime)));
    member(&mut d, "expires_in_ms", opt_uint(remaining));
    JsonValue::Object(d)
}

// ----- the daemon's state -----
pub struct DaemonState {
    registry: Table<ProgramSpec>,
    running: Table<RunningProgram>,
}

fn copy_strings(v: &Vec<String>) -> (r: Vec<String>)
    ensures
        strings_view(r@) == strings_view(v@),
{
    let mut r: Vec<String> = Vec::new();
    let mut i: usize = 0;
    while i < v.len()
        invariant
            i <= v.len(),
            strings_view(r@) == strings_view(v@).subrange(0, i as int),
        decreases v.len() - i,
    {
        let ghost before = r@;
        let c = v[i].clone();
        r.push(c);
        assert(strings_view(r@) =~= strings_view(before).push(c@));
        assert(strings_view(v@).subrange(0, i + 1) =~= strings_view(v@).subrange(0, i as int).push(c@));
        i = i + 1;
    }
    r
}

fn copy_env(env: &Table<String>) -> (r: Table<String>)
    ensures
        r@.map_values(|v: String| v@) == env@.map_values(|v: String| v@),
{
    let keys = env.keys();
    let mut out: Table<String> = Table::new();
    let mut i: usize = 0;
    while i < keys.len()
        invariant
            i <= keys.len(),
            forall|j: int| 0 <= j < keys@.len() ==> env@.contains_key(#[trigger] keys@[j]@),
            forall|k: Seq<char>| #[trigger] out@.contains_key(k) ==> env@.contains_key(k) && out@[k]@ == env@[k]@,
            forall|j: int| 0 <= j < i ==> out@.contains_key(#[trigger] keys@[j]@),
        decreases keys.len() - i,
    {
        match env.get(keys[i].as_str()) {
            Some(v) => {
                out.insert(keys[i].clone(), v.clone());
            },
            None => {},
        }
        i = i + 1;
    }
    proof {
        assert forall|k: Seq<char>| env@.contains_key(k) implies out@.contains_key(k) by {
            let j = choose|j: int| 0 <= j < keys@.len() && keys@[j]@ == k;
        }
        assert(out@.map_values(|v: String| v@) =~= env@.map_values(|v: String| v@));
    }
    out
}

/// A copy of a program: the same texts and settings.
pub fn copy_spec(s: &ProgramSpec) -> (r: ProgramSpec)
    ensures
        same_program(r, *s),
{
    ProgramSpec {
        name: s.name.clone(),
        command: s.command.clone(),
        args: copy_strings(&s.args),
        cwd: match &s.cwd {
            Some(c) => Some(c.clone()),
            None => None,
        },
        env: copy_env(&s.env),
        ttl_seconds: s.ttl_seconds,
        allow_concurrent: s.allow_concurrent,
    }
}

/// The text of an optional string.
pub open spec fn opt_text(o: Option<String>) -> Option<Seq<char>> {
    match o {
        Some(t) => Some(t@),
        None => None,
    }
}

/// Two programs with the same texts and settings.
pub open spec fn same_program(a: ProgramSpec, b: ProgramSpec) -> bool {
    &&& a.name@ == b.name@
    &&& a.command@ == b.command@
    &&& strings_view(a.args@) == strings_view(b.args@)
    &&& opt_text(a.cwd) == opt_text(b.cwd)
    &&& a.env@.map_values(|v: String| v@) == b.env@.map_values(|v: String| v@)
    &&& a.ttl_seconds == b.ttl_seconds
    &&& a.allow_concurrent == b.allow_concurrent
}

/// `ps` lists every registered program once, in the order of their names.
pub open spec fn programs_listed(ps: Seq<Json>, registry: Map<Seq<char>, ProgramSpec>) -> bool {
    exists|ks: Seq<Seq<char>>|
        #![trigger ks.len()]
        strictly_sorted(ks) && ks.len() == ps.len() && (forall|i: int|
            0 <= i < ks.len() ==> registry.contains_key(#[trigger] ks[i]) && program_json(ps[i], registry[ks[i]]))
            && (forall|k: Seq<char>| #[trigger] registry.contains_key(k) ==> ks.contains(k))
}

/// `rs` reports every run once at `now_ms`, in the order of their program
/// names.
pub open spec fn runs_listed(rs: Seq<Json>, runs: Map<Seq<char>, RunningProgram>, now_ms: u64) -> bool {
    exists|ids: Seq<Seq<char>>|
        #![trigger ids.len()]
        ids.len() == rs.len() && ids.no_duplicates() && (forall|k: Seq<char>|
            #[trigger] runs.contains_key(k) ==> ids.contains(k)) && (forall|i: int|
            0 <= i < ids.len() ==> runs.contains_key(#[trigger] ids[i]) && run_json(rs[i], runs[ids[i]], now_ms))
            && (forall|a: int, b: int|
            0 <= a < b < ids.len() ==> !text_lt(#[trigger] runs[ids[b]].name@, #[trigger] runs[ids[a]].name@))
}

/// The answer to a list request: the registered programs.
pub open spec fn list_data(j: Json, registry: Map<Seq<char>, ProgramSpec>) -> bool {
    j matches Json::Obj(fs) && fs.len() == 1 && fs[0].0 == "programs"@ && (fs[0].1 matches Json::Arr(ps)
        && programs_listed(ps, registry))
}

/// The answer to a status request: the registered programs, then the runs.
pub open spec fn status_data(
    j: Json,
    registry: Map<Seq<char>, ProgramSpec>,
    runs: Map<Seq<char>, RunningProgram>,
    now_ms: u64,
) -> bool {
    j matches Json::Obj(fs) && fs.len() == 2 && fs[0].0 == "programs"@ && (fs[0].1 matches Json::Arr(ps)
        && programs_listed(ps, registry)) && fs[1].0 == "running"@ && (fs[1].1 matches Json::Arr(rs)
        && runs_listed(rs, runs, now_ms))
}

/// Whether some run of the program is going.
pub open spec fn running_named(runs: Map<Seq<char>, RunningProgram>, name: Seq<char>) -> bool {
    exists|k: Seq<char>| runs.contains_key(k) && (#[trigger] runs[k]).name@ == name
}

impl DaemonState {
    pub closed spec fn registry_spec(&self) -> Map<Seq<char>, ProgramSpec> {
        self.registry@
    }

    pub closed spec fn running_spec(&self) -> Map<Seq<char>, RunningProgram> {
        self.running@
    }

    /// A daemon with a loaded registry and nothing running.
    pub fn new(registry: Table<ProgramSpec>) -> (s: DaemonState)
        ensures
            s.registry_spec() == registry@,
            s.running_spec().is_empty(),
    {
        DaemonState { registry, running: Table::new() }
    }

    /// The registry, to be saved.
    pub fn registry(&self) -> (r: &Table<ProgramSpec>)
        ensures
            r@ == self.registry_spec(),
    {
        &self.registry
    }

    fn has_run_named(&self, name: &str) -> (r: bool)
        ensures
            r == running_named(self.running@, name@),
    {
        let ids = self.running.keys();
        let mut i: usize = 0;
        while i < ids.len()
            invariant
                i <= ids.len(),
                forall|j: int| 0 <= j < ids@.len() ==> self.running@.contains_key(#[trigger] ids@[j]@),
                forall|k: Seq<char>| #[trigger] self.running@.contains_key(k) ==> exists|j: int| 0 <= j < ids@.len() && ids@[j]@ == k,
                forall|j: int| 0 <= j < i ==> self.running@[#[trigger] ids@[j]@].name@ != name@,
            decreases ids.len() - i,
        {
            match self.running.get(ids[i].as_str()) {
                Some(r) => {
                    if crate::json::str_eq(r.name.as_str(), name) {
                        return true;
                    }
                },
                None => {},
            }
            i = i + 1;
        }
        proof {
            assert forall|k: Seq<char>| self.running@.contains_key(k) implies (#[trigger] self.running@[k]).name@ != name@ by {
                let j = choose|j: int| 0 <= j < ids@.len() && ids@[j]@ == k;
                assert(self.running@[ids@[j]@].name@ != name@);
            }
        }
        false
    }

    /// The ids of the runs of a program.
    fn runs_named(&self, name: &str) -> (ids: Vec<String>)
        ensures
            forall|j: int| 0 <= j < ids@.len() ==> self.running@.contains_key(#[trigger] ids@[j]@) && self.running@[ids@[j]@].name@ == name@,
            forall|k: Seq<char>| #[trigger] self.running@.contains_key(k) && self.running@[k].name@ == name@ ==> strings_view(ids@).contains(k),
            strings_view(ids@).no_duplicates(),
    {
        let all = self.running.keys();
        let mut ids: Vec<String> = Vec::new();
        let mut i: usize = 0;
        while i < all.len()
            invariant
                i <= all.len(),
                forall|j: int| 0 <= j < all@.len() ==> self.running@.contains_key(#[trigger] all@[j]@),
                forall|k: Seq<char>| #[trigger] self.running@.contains_key(k) ==> exists|j: int| 0 <= j < all@.len() && all@[j]@ == k,
                forall|a: int, b: int| 0 <= a < b < all@.len() ==> #[trigger] all@[a]@ != #[trigger] all@[b]@,
                forall|j: int| 0 <= j < ids@.len() ==> self.running@.contains_key(#[trigger] ids@[j]@) && self.running@[ids@[j]@].name@ == name@,
                forall|j: int| 0 <= j < ids@.len() ==> strings_view(all@.subrange(0, i as int)).contains(#[trigger] ids@[j]@),
                strings_view(ids@).no_duplicates(),
                forall|j: int| 0 <= j < i && self.running@[all@[j]@].name@ == name@ ==> strings_view(ids@).contains(#[trigger] all@[j]@),
            decreases all.len() - i,
        {
            let ghost before = ids@;
            proof {
                assert forall|j: int| 0 <= j < before.len() implies strings_view(all@.subrange(0, i + 1)).contains(
                    #[trigger] before[j]@,
                ) by {
                    let x = choose|x: int| 0 <= x < i && strings_view(all@.subrange(0, i as int))[x] == before[j]@;
                    assert(strings_view(all@.subrange(0, i + 1))[x] == before[j]@);
                }
                assert(strings_view(all@.subrange(0, i + 1))[i as int] == all@[i as int]@);
            }
            match self.running.get(all[i].as_str()) {
                Some(r) => {
                    if crate::json::str_eq(r.name.as_str(), name) {
                        proof {
                            assert forall|j: int| 0 <= j < before.len() implies before[j]@ != all@[i as int]@ by {
                                let x = choose|x: int| 0 <= x < i && strings_view(all@.subrange(0, i as int))[x] == before[j]@;
                                assert(all@[x]@ == before[j]@);
                            }
                        }
                        ids.push(all[i].clone());
                        proof {
                            assert(strings_view(ids@) =~= strings_view(before).push(all@[i as int]@));
                            assert(strings_view(ids@)[before.len() as int] == all@[i as int]@);
                            assert forall|j: int| 0 <= j < i + 1 && self.running@[all@[j]@].name@ == name@ implies strings_view(ids@).contains(#[trigger] all@[j]@) by {
                                if j < i {
                                    let x = choose|x: int| 0 <= x < strings_view(before).len() && strings_view(before)[x] == all@[j]@;
                                    assert(strings_view(ids@)[x] == all@[j]@);
                                }
                            }
                        }
                    }
                },
                None => {},
            }
            i = i + 1;
        }
        proof {
            assert forall|k: Seq<char>| #[trigger] self.running@.contains_key(k) && self.running@[k].name@ == name@ implies strings_view(ids@).contains(k) by {
                let j = choose|j: int| 0 <= j < all@.len() && all@[j]@ == k;
                assert(strings_view(ids@).contains(all@[j]@));
            }
        }
        ids
    }

    /// The registered programs, in the order of their names.
    pub fn program_list(&self) -> (v: Vec<JsonValue>)
        ensures
            programs_listed(items_view(v@), self.registry_spec()),
    {
        let keys = self.registry.keys();
        let sorted = sorted_distinct(&keys);
        let ghost ks = strings_view(sorted@);
        proof {
            assert forall|k: Seq<char>| #[trigger] self.registry@.contains_key(k) implies ks.contains(k) by {
                let j = choose|j: int| 0 <= j < keys@.len() && keys@[j]@ == k;
                assert(strings_view(keys@)[j] == k);
                assert(strings_view(keys@).contains(k));
            }
            assert forall|q: int| 0 <= q < ks.len() implies #[trigger] self.registry@.contains_key(ks[q]) by {
                assert(ks.contains(ks[q]));
                let x = choose|x: int| 0 <= x < strings_view(keys@).len() && strings_view(keys@)[x] == ks[q];
                assert(keys@[x]@ == ks[q]);
            }
        }
        let mut v: Vec<JsonValue> = Vec::new();
        let mut i: usize = 0;
        while i < sorted.len()
            invariant
                i <= sorted.len(),
                v@.len() == i,
                ks == strings_view(sorted@),
                strictly_sorted(ks),
                forall|q: int| 0 <= q < ks.len() ==> #[trigger] self.registry@.contains_key(ks[q]),
                forall|j: int| 0 <= j < i ==> program_json(#[trigger] v@[j]@, self.registry@[ks[j]]),
            decreases sorted.len() - i,
        {
            assert(sorted@[i as int]@ == ks[i as int]);
            match self.registry.get(sorted[i].as_str()) {
                Some(spec) => v.push(spec_json(spec)),
                None => {
                    assert(false);
                },
            }
            i = i + 1;
        }
        proof {
            lemma_items_view(v@);
            let ps = items_view(v@);
            assert(ks.len() == ps.len());
            assert forall|q: int| 0 <= q < ks.len() implies self.registry@.contains_key(#[trigger] ks[q])
                && program_json(ps[q], self.registry@[ks[q]]) by {
                assert(ps[q] == json_view(v@[q]));
                assert(v@[q]@ == json_view(v@[q]));
                assert(program_json(v@[q]@, self.registry@[ks[q]]));
            }
        }
        v
    }

    /// The runs as they are reported, in the order of their names (runs of
    /// one program in the order of their ids).
    pub fn to_running_views(&self, now_ms: u64) -> (v: Vec<JsonValue>)
        ensures
            runs_listed(items_view(v@), self.running_spec(), now_ms),
    {
        let keys = self.running.keys();
        let sorted = sorted_distinct(&keys);
        let ghost ks = strings_view(sorted@);
        proof {
            assert forall|k: Seq<char>| #[trigger] self.running@.contains_key(k) implies ks.contains(k) by {
                let j = choose|j: int| 0 <= j < keys@.len() && keys@[j]@ == k;
                assert(strings_view(keys@)[j] == k);
                assert(strings_view(keys@).contains(k));
            }
            assert forall|q: int| 0 <= q < ks.len() implies #[trigger] self.running@.contains_key(ks[q]) by {
                assert(ks.contains(ks[q]));
                let x = choose|x: int| 0 <= x < strings_view(keys@).len() && strings_view(keys@)[x] == ks[q];
                assert(keys@[x]@ == ks[q]);
            }
        }
        let n = sorted.len();
        // The runs, in the order of their ids.
        let mut runs: Vec<&RunningProgram> = Vec::new();
        let mut i: usize = 0;
        while i < n
            invariant
                n == sorted@.len(),
                i <= n,
                runs@.len() == i,
                ks == strings_view(sorted@),
                forall|q: int| 0 <= q < ks.len() ==> #[trigger] self.running@.contains_key(ks[q]),
                forall|q: int| 0 <= q < i ==> *runs@[q] == self.running@[#[trigger] ks[q]],
            decreases n - i,
        {
            assert(sorted@[i as int]@ == ks[i as int]);
            match self.running.get(sorted[i].as_str()) {
                Some(r) => runs.push(r),
                None => {
                    assert(false);
                },
            }
            i = i + 1;
        }
        // Positions into `runs`, ordered by name; equal names keep their order.
        let mut order: Vec<usize> = Vec::new();
        i = 0;
        while i < n
            invariant
                n == runs@.len(),
                i <= n,
                order@.len() == i,
                order@.no_duplicates(),
                forall|k: int| 0 <= k < order@.len() ==> order@[k] < i,
                forall|j: usize| j < i ==> #[trigger] order@.contains(j),
                forall|a: int, b: int|
                    0 <= a < b < order@.len() ==> !text_lt(
                        runs@[order@[b] as int].name@,
                        runs@[order@[a] as int].name@,
                    ),
            decreases n - i,
        {
            let ghost x = runs@[i as int].name@;
            let mut p: usize = 0;
            while p < order.len() && !str_lt(runs[i].name.as_str(), runs[order[p]].name.as_str())
                invariant
                    n == runs@.len(),
                    i < n,
                    x == runs@[i as int].name@,
                    p <= order@.len(),
                    forall|k: int| 0 <= k < order@.len() ==> order@[k] < i,
                    forall|q: int| 0 <= q < p ==> !text_lt(x, runs@[order@[q] as int].name@),
                decreases order@.len() - p,
            {
                p = p + 1;
            }
            let ghost before = order@;
            order.insert(p, i);
            proof {
                assert(order@ =~= before.insert(p as int, i));
                assert forall|j: usize| j < i + 1 implies #[trigger] order@.contains(j) by {
                    if j == i {
                        assert(order@[p as int] == i);
                    } else {
                        assert(before.contains(j));
                        let q = choose|q: int| 0 <= q < before.len() && before[q] == j;
                        if q < p {
                            assert(order@[q] == j);
                        } else {
                            assert(order@[q + 1] == j);
                        }
                    }
                }
                assert forall|a: int, b: int| 0 <= a < b < order@.len() implies order@[a] != order@[b]
                    && !text_lt(runs@[order@[b] as int].name@, runs@[order@[a] as int].name@) by {
                    if a == p {
                        assert(order@[b] == before[b - 1]);
                        let y = runs@[before[p as int] as int].name@;
                        let z = runs@[before[b - 1] as int].name@;
                        assert(text_lt(x, y));
                        if b - 1 > p {
                            if y != z {
                                lemma_text_lt_total(y, z);
                                lemma_text_lt_transitive(x, y, z);
                            }
                        }
                        lemma_text_lt_asymmetric(x, z);
                    } else if b == p {
                        assert(order@[a] == before[a]);
                    } else {
                        let aa = if a < p { a } else { a - 1 };
                        let bb = if b < p { b } else { b - 1 };
                        assert(order@[a] == before[aa] && order@[b] == before[bb]);
                    }
                }
            }
            i = i + 1;
        }
        let ghost ids = order@.map_values(|k: usize| ks[k as int]);
        let mut v: Vec<JsonValue> = Vec::new();
        let mut k: usize = 0;
        while k < n
            invariant
                k <= n,
                n == runs@.len(),
                n == ks.len(),
                order@.len() == n,
                forall|q: int| 0 <= q < n ==> order@[q] < n,
                forall|q: int| 0 <= q < n ==> *runs@[q] == self.running@[#[trigger] ks[q]],
                ids == order@.map_values(|k: usize| ks[k as int]),
                v@.len() == k,
                forall|q: int| 0 <= q < k ==> run_json(#[trigger] v@[q]@, self.running@[ids[q]], now_ms),
            decreases n - k,
        {
            let idx = order[k];
            assert(*runs@[idx as int] == self.running@[ks[idx as int]]);
            v.push(running_json(runs[idx], now_ms));
            k = k + 1;
        }
        proof {
            assert forall|a: int, b: int| 0 <= a < b < ids.len() implies ids[a] != ids[b] by {
                let (x, y) = (order@[a] as int, order@[b] as int);
                assert(x != y);
                if x < y {
                    assert(text_lt(ks[x], ks[y]));
                } else {
                    assert(text_lt(ks[y], ks[x]));
                }
                lemma_text_lt_irreflexive(ks[x]);
            }
            assert forall|kk: Seq<char>| #[trigger] self.running@.contains_key(kk) implies ids.contains(kk) by {
                assert(ks.contains(kk));
                let j = choose|j: int| 0 <= j < ks.len() && ks[j] == kk;
                let ju = j as usize;
                assert(order@.contains(ju));
                let q = choose|q: int| 0 <= q < order@.len() && order@[q] == ju;
                assert(ids[q] == kk);
            }
            assert forall|a: int, b: int| 0 <= a < b < ids.len() implies !text_lt(
                #[trigger] self.running@[ids[b]].name@,
                #[trigger] self.running@[ids[a]].name@,
            ) by {
                assert(*runs@[order@[a] as int] == self.running@[ks[order@[a] as int]]);
                assert(*runs@[order@[b] as int] == self.running@[ks[order@[b] as int]]);
            }
            assert(ids.len() == v@.len());
            lemma_items_view(v@);
            let rs = items_view(v@);
            assert forall|q: int| 0 <= q < ids.len() implies self.running@.contains_key(#[trigger] ids[q])
                && run_json(rs[q], self.running@[ids[q]], now_ms) by {
                assert(rs[q] == json_view(v@[q]));
                assert(v@[q]@ == json_view(v@[q]));
                assert(run_json(v@[q]@, self.running@[ids[q]], now_ms));
            }
        }
        v
    }

    /// Decides a request.
    pub fn process_request(&mut self, req: ApiRequest, now_ms: u64) -> (o: RequestOutcome)
        ensures
            match req {
                ApiRequest::Ping => {
                    &&& final(self).registry_spec() == old(self).registry_spec()
                    &&& final(self).running_spec() == old(self).running_spec()
                    &&& o matches RequestOutcome::Reply(r) && r.ok && r.message@ == "pong"@ && r.data@ == Json::Obj(seq![("ok"@, Json::Bool(true))])
                },
                ApiRequest::Register { spec } => {
                    &&& final(self).registry_spec() == old(self).registry_spec().insert(spec.name@, spec)
                    &&& final(self).running_spec() == old(self).running_spec()
                    &&& o matches RequestOutcome::SaveRegistry { message, data } && message@ == "registered"@
                        && data@ == Json::Obj(seq![("name"@, Json::Str(spec.name@))])
                },
                ApiRequest::Unregister { name } => {
                    &&& final(self).registry_spec() == old(self).registry_spec().remove(name@)
                    &&& final(self).running_spec() == old(self).running_spec()
                    &&& o matches RequestOutcome::SaveRegistry { message, data } && message@ == "unregistered"@
                        && data@ == Json::Obj(seq![
                            ("name"@, Json::Str(name@)),
                            ("existed"@, Json::Bool(old(self).registry_spec().contains_key(name@))),
                        ])
                },
                ApiRequest::List => {
                    &&& final(self).registry_spec() == old(self).registry_spec()
                    &&& final(self).running_spec() == old(self).running_spec()
                    &&& o matches RequestOutcome::Reply(r) && r.ok && r.message@ == "list"@ && list_data(
                        r.data@,
                        old(self).registry_spec(),
                    )
                },
                ApiRequest::Status => {
                    &&& final(self).registry_spec() == old(self).registry_spec()
                    &&& final(self).running_spec() == old(self).running_spec()
                    &&& o matches RequestOutcome::Reply(r) && r.ok && r.message@ == "status"@ && status_data(
                        r.data@,
                        old(self).registry_spec(),
                        old(self).running_spec(),
                        now_ms,
                    )
                },
                ApiRequest::Run { name, ttl_seconds } => {
                    &&& final(self).registry_spec() == old(self).registry_spec()
                    &&& final(self).running_spec() == old(self).running_spec()
                    &&& if !old(self).registry_spec().contains_key(name@) {
                        o matches RequestOutcome::Reply(r) && !r.ok && r.message@ == "program not found: "@ + name@
                    } else if !old(self).registry_spec()[name@].allow_concurrent && running_named(
                        old(self).running_spec(),
                        old(self).registry_spec()[name@].name@,
                    ) {
                        o matches RequestOutcome::Reply(r) && !r.ok && r.message@
                            == "program already running and allow_concurrent=false: "@ + old(self).registry_spec()[name@].name@
                    } else {
                        o matches RequestOutcome::Spawn { spec: s, ttl_seconds: t } && same_program(
                            s,
                            old(self).registry_spec()[name@],
                        ) && t == (if ttl_seconds is Some {
                            ttl_seconds
                        } else {
                            old(self).registry_spec()[name@].ttl_seconds
                        })
                    }
                },
                ApiRequest::Stop { name } => {
                    &&& final(self).registry_spec() == old(self).registry_spec()
                    &&& forall|k: Seq<char>| #[trigger] final(self).running_spec().contains_key(k) <==> (old(self).running_spec().contains_key(k)
                        && old(self).running_spec()[k].name@ != name@)
                    &&& forall|k: Seq<char>| #[trigger] final(self).running_spec().contains_key(k) ==> final(self).running_spec()[k]
                        == old(self).running_spec()[k]
                    &&& o matches RequestOutcome::Kill { run_ids, reply } && reply.ok && reply.message@ == "stopped"@
                        && (forall|k: Seq<char>| #[trigger] strings_view(run_ids@).contains(k) <==> (old(self).running_spec().contains_key(k)
                        && old(self).running_spec()[k].name@ == name@)) && strings_view(run_ids@).no_duplicates()
                        && reply.data@ == Json::Obj(seq![
                            ("name"@, Json::Str(name@)),
                            ("stopped"@, Json::Num(JsonNumber::UInt(run_ids@.len() as u64))),
                        ])
                },
                ApiRequest::RunRaw { spec } => {
                    &&& final(self).registry_spec() == old(self).registry_spec()
                    &&& final(self).running_spec() == old(self).running_spec()
                    &&& if !spec.allow_concurrent && running_named(old(self).running_spec(), spec.name@) {
                        o matches RequestOutcome::Reply(r) && !r.ok && r.message@
                            == "program already running and allow_concurrent=false: "@ + spec.name@
                    } else {
                        o matches RequestOutcome::Spawn { spec: s, ttl_seconds: t } && s == spec && t is None
                    }
                },
            },
    {
        match req {
            ApiRequest::Ping => RequestOutcome::Reply(ok("pong", obj1("ok", JsonValue::Bool(true)))),
            ApiRequest::Register { spec } => {
                let name = spec.name.clone();
                self.registry.insert(spec.name.clone(), spec);
                RequestOutcome::SaveRegistry {
                    message: String::from_str("registered"),
                    data: obj1("name", owned_text(name)),
                }
            },
            ApiRequest::Unregister { name } => {
                let existed = self.registry.remove(name.as_str()).is_some();
                RequestOutcome::SaveRegistry {
                    message: String::from_str("unregistered"),
                    data: obj2("name", owned_text(name), "existed", JsonValue::Bool(existed)),
                }
            },
            ApiRequest::List => {
                let items = self.program_list();
                RequestOutcome::Reply(ok("list", obj1("programs", JsonValue::Array(items))))
            },
            ApiRequest::Status => {
                let programs = self.program_list();
                let running = self.to_running_views(now_ms);
                RequestOutcome::Reply(
                    ok("status", obj2("programs", JsonValue::Array(programs), "running", JsonValue::Array(running))),
                )
            },
            ApiRequest::Run { name, ttl_seconds } => {
                let spec = match self.registry.get(name.as_str()) {
                    Some(s) => copy_spec(s),
                    None => {
                        return RequestOutcome::Reply(err(concat_str("program not found: ", name.as_str())));
                    },
                };
                let ttl = match ttl_seconds {
                    Some(t) => Some(t),
                    None => spec.ttl_seconds,
                };
                self.spawn_decision(spec, ttl)
            },
            ApiRequest::Stop { name } => {
                let ids = self.runs_named(name.as_str());
                let ghost before = self.running@;
                let mut i: usize = 0;
                while i < ids.len()
                    invariant
                        i <= ids.len(),
                        self.registry@ == old(self).registry@,
                        before == old(self).running@,
                        forall|j: int| 0 <= j < ids@.len() ==> before.contains_key(#[trigger] ids@[j]@) && before[ids@[j]@].name@ == name@,
                        forall|k: Seq<char>| #[trigger] before.contains_key(k) && before[k].name@ == name@ ==> strings_view(ids@).contains(k),
                        forall|k: Seq<char>| #[trigger] self.running@.contains_key(k) <==> (before.contains_key(k) && !strings_view(ids@).subrange(0, i as int).contains(k)),
                        forall|k: Seq<char>| #[trigger] self.running@.contains_key(k) ==> self.running@[k] == before[k],
                    decreases ids.len() - i,
                {
                    let _ = self.running.remove(ids[i].as_str());
                    proof {
                        let pre = strings_view(ids@).subrange(0, i as int);
                        let post = strings_view(ids@).subrange(0, i + 1);
                        assert(post =~= pre.push(ids@[i as int]@));
                        assert forall|k: Seq<char>| post.contains(k) <==> (pre.contains(k) || k == ids@[i as int]@) by {
                            if post.contains(k) {
                                let x = choose|x: int| 0 <= x < post.len() && post[x] == k;
                                if x < i {
                                    assert(pre[x] == k);
                                }
                            }
                            if pre.contains(k) {
                                let x = choose|x: int| 0 <= x < pre.len() && pre[x] == k;
                                assert(post[x] == k);
                            }
                            assert(post[i as int] == ids@[i as int]@);
                        }
                    }
                    i = i + 1;
                }
                proof {
                    assert(strings_view(ids@).subrange(0, ids.len() as int) == strings_view(ids@));
                    assert forall|k: Seq<char>| #[trigger] self.running@.contains_key(k) <==> (before.contains_key(k) && before[k].name@ != name@) by {
                        if before.contains_key(k) && strings_view(ids@).contains(k) {
                            let x = choose|x: int| 0 <= x < strings_view(ids@).len() && strings_view(ids@)[x] == k;
                            assert(ids@[x]@ == k);
                        }
                    }
                }
                let count = ids.len() as u64;
                let reply = ok("stopped", obj2("name", owned_text(name), "stopped", JsonValue::Number(JsonNumber::UInt(count))));
                RequestOutcome::Kill { run_ids: ids, reply }
            },
            ApiRequest::RunRaw { spec } => self.spawn_decision(spec, None),
        }
    }

    fn spawn_decision(&self, spec: ProgramSpec, ttl: Option<u64>) -> (o: RequestOutcome)
        ensures
            !spec.allow_concurrent && running_named(self.running@, spec.name@) ==> (o matches RequestOutcome::Reply(r)
                && !r.ok && r.message@ == "program already running and allow_concurrent=false: "@ + spec.name@),
            !(!spec.allow_concurrent && running_named(self.running@, spec.name@)) ==> (o matches RequestOutcome::Spawn { spec: s, ttl_seconds: t }
                && s == spec && t == ttl),
    {
        if !spec.allow_concurrent && self.has_run_named(spec.name.as_str()) {
            return RequestOutcome::Reply(
                err(concat_str("program already running and allow_concurrent=false: ", spec.name.as_str())),
            );
        }
        RequestOutcome::Spawn { spec, ttl_seconds: ttl }
    }

    /// Records a run that was started, and answers.
    pub fn record_start(&mut self, spec: &ProgramSpec, ttl_seconds: Option<u64>, run_id: String, pid: u32, now_ms: u64) -> (r: ApiResponse)
        ensures
            final(self).registry_spec() == old(self).registry_spec(),
            final(self).running_spec().dom() == old(self).running_spec().dom().insert(run_id@),
            final(self).running_spec()[run_id@].name@ == spec.name@,
            final(self).running_spec()[run_id@].pid == pid,
            final(self).running_spec()[run_id@].started_at_ms == now_ms,
            final(self).running_spec()[run_id@].expires_at_ms == (match ttl_seconds {
                Some(s) => Some(if now_ms + s * 1000 <= u64::MAX {
                    (now_ms + s * 1000) as u64
                } else {
                    u64::MAX
                }),
                None => None,
            }),
            r.ok,
            r.message@ == "started"@,
            r.data@ == Json::Obj(seq![
                ("run_id"@, Json::Str(run_id@)),
                ("name"@, Json::Str(spec.name@)),
                ("pid"@, Json::Num(JsonNumber::UInt(pid as u64))),
                ("ttl_seconds"@, opt_u64_json(ttl_seconds)),
            ]),
    {
        let expires: Option<u64> = match ttl_seconds {
            Some(s) => {
                let ms: u64 = if s > u64::MAX / 1000 {
                    u64::MAX
                } else {
                    s * 1000
                };
                Some(if now_ms > u64::MAX - ms {
                    u64::MAX
                } else {
                    now_ms + ms
                })
            },
            None => None,
        };
        let run = RunningProgram {
            run_id: run_id.clone(),
            name: spec.name.clone(),
            command: spec.command.clone(),
            args: copy_strings(&spec.args),
            started_at_ms: now_ms,
            expires_at_ms: expires,
            pid,
        };
        self.running.insert(run_id.clone(), run);
        assert(self.running@.dom() =~= old(self).running@.dom().insert(run_id@));
        let mut d: Vec<(String, JsonValue)> = Vec::new();
        let ghost rid = run_id@;
        member(&mut d, "run_id", owned_text(run_id));
        member(&mut d, "name", owned_text(spec.name.clone()));
        member(&mut d, "pid", JsonValue::Number(JsonNumber::UInt(pid as u64)));
        member(&mut d, "ttl_seconds", opt_uint(ttl_seconds));
        assert(fields_view(d@) =~= seq![
            ("run_id"@, Json::Str(rid)),
            ("name"@, Json::Str(spec.name@)),
            ("pid"@, Json::Num(JsonNumber::UInt(pid as u64))),
            ("ttl_seconds"@, opt_u64_json(ttl_seconds)),
        ]);
        ok("started", JsonValue::Object(d))
    }

    /// The runs whose time to live is over.
    pub fn expired_runs(&self, now_ms: u64) -> (ids: Vec<String>)
        ensures
            forall|j: int| 0 <= j < ids@.len() ==> self.running_spec().contains_key(#[trigger] ids@[j]@)
                && (self.running_spec()[ids@[j]@].expires_at_ms matches Some(d) && now_ms >= d),
            forall|k: Seq<char>|
                #[trigger] self.running_spec().contains_key(k) && (self.running_spec()[k].expires_at_ms matches Some(
                    d,
                ) && now_ms >= d) ==> strings_view(ids@).contains(k),
            strings_view(ids@).no_duplicates(),
    {
        let all = self.running.keys();
        let mut ids: Vec<String> = Vec::new();
        let mut i: usize = 0;
        while i < all.len()
            invariant
                i <= all.len(),
                forall|j: int| 0 <= j < all@.len() ==> self.running@.contains_key(#[trigger] all@[j]@),
                forall|j: int| 0 <= j < ids@.len() ==> self.running@.contains_key(#[trigger] ids@[j]@)
                    && (self.running@[ids@[j]@].expires_at_ms matches Some(d) && now_ms >= d),
                forall|a: int, b: int| 0 <= a < b < all@.len() ==> #[trigger] all@[a]@ != #[trigger] all@[b]@,
                forall|j: int| 0 <= j < ids@.len() ==> strings_view(all@.subrange(0, i as int)).contains(#[trigger] ids@[j]@),
                strings_view(ids@).no_duplicates(),
                forall|j: int|
                    0 <= j < i && (self.running@[#[trigger] all@[j]@].expires_at_ms matches Some(d) && now_ms >= d)
                        ==> strings_view(ids@).contains(all@[j]@),
            decreases all.len() - i,
        {
            let ghost before = ids@;
            proof {
                assert forall|j: int| 0 <= j < before.len() implies strings_view(all@.subrange(0, i + 1)).contains(
                    #[trigger] before[j]@,
                ) by {
                    let x = choose|x: int| 0 <= x < i && strings_view(all@.subrange(0, i as int))[x] == before[j]@;
                    assert(strings_view(all@.subrange(0, i + 1))[x] == before[j]@);
                }
                assert(strings_view(all@.subrange(0, i + 1))[i as int] == all@[i as int]@);
            }
            match self.running.get(all[i].as_str()) {
                Some(r) => match r.expires_at_ms {
                    Some(d) => {
                        if now_ms >= d {
                            proof {
                                assert forall|j: int| 0 <= j < before.len() implies before[j]@ != all@[i as int]@ by {
                                    let x = choose|x: int| 0 <= x < i && strings_view(all@.subrange(0, i as int))[x] == before[j]@;
                                    assert(all@[x]@ == before[j]@);
                                }
                            }
                            ids.push(all[i].clone());
                            proof {
                                assert(strings_view(ids@) =~= strings_view(before).push(all@[i as int]@));
                                assert(strings_view(ids@)[before.len() as int] == all@[i as int]@);
                                assert forall|j: int| 0 <= j < i + 1 && (self.running@[#[trigger] all@[j]@].expires_at_ms matches Some(dd) && now_ms >= dd)
                                    implies strings_view(ids@).contains(all@[j]@) by {
                                    if j < i {
                                        let x = choose|x: int| 0 <= x < before.len() && strings_view(before)[x] == all@[j]@;
                                        assert(strings_view(ids@)[x] == all@[j]@);
                                    }
                                }
                            }
                        }
                    },
                    None => {},
                },
                None => {},
            }
            i = i + 1;
        }
        proof {
            assert forall|k: Seq<char>|
                #[trigger] self.running@.contains_key(k) && (self.running@[k].expires_at_ms matches Some(d) && now_ms >= d)
                    implies strings_view(ids@).contains(k) by {
                let j = choose|j: int| 0 <= j < all@.len() && all@[j]@ == k;
                assert(self.running@[all@[j]@] == self.running@[k]);
            }
        }
        ids
    }

    /// Forgets runs that ended or were killed.
    pub fn remove_runs(&mut self, ids: &[String])
        ensures
            final(self).registry_spec() == old(self).registry_spec(),
            forall|k: Seq<char>| #[trigger] final(self).running_spec().contains_key(k) <==> (old(self).running_spec().contains_key(k)
                && !strings_view(ids@).contains(k)),
    {
        let mut i: usize = 0;
        while i < ids.len()
            invariant
                i <= ids.len(),
                self.registry@ == old(self).registry@,
                forall|k: Seq<char>| #[trigger] self.running@.contains_key(k) <==> (old(self).running@.contains_key(k)
                    && !strings_view(ids@).subrange(0, i as int).contains(k)),
            decreases ids.len() - i,
        {
            let _ = self.running.remove(ids[i].as_str());
            proof {
                let pre = strings_view(ids@).subrange(0, i as int);
                let post = strings_view(ids@).subrange(0, i + 1);
                assert forall|k: Seq<char>| post.contains(k) <==> (pre.contains(k) || k == ids@[i as int]@) by {
                    if post.contains(k) {
                        let x = choose|x: int| 0 <= x < post.len() && post[x] == k;
                        if x < i {
                            assert(pre[x] == k);
                        }
                    }
                    if pre.contains(k) {
                        let x = choose|x: int| 0 <= x < pre.len() && pre[x] == k;
                        assert(post[x] == k);
                    }
                    assert(post[i as int] == ids@[i as int]@);
                }
            }
            i = i + 1;
        }
        assert(strings_view(ids@).subrange(0, ids.len() as int) == strings_view(ids@));
    }
}

/// The answer to a registry change once the registry was saved (or not).
pub fn saved_response(message: String, data: JsonValue, saved: Result<(), String>) -> (r: ApiResponse)
    ensures
        saved is Ok ==> r.ok && r.message@ == message@ && r.data@ == data@,
        saved matches Err(e) ==> !r.ok && r.message@ == "save registry failed: "@ + e@,
{
    match saved {
        Ok(()) => ApiResponse { ok: true, message, data },
        Err(e) => err(concat_str("save registry failed: ", e.as_str())),
    }
}

/// The answer when a program could not be started.
pub fn spawn_failed(reason: &str) -> (r: ApiResponse)
    ensures
        !r.ok,
        r.message@ == "spawn failed: "@ + reason@,
{
    err(concat_str("spawn failed: ", reason))
}

} // verus!
