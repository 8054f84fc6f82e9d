//! External execution boundary.
//!
//! The kernel decides composition, admission and lifecycle; hosts execute.
//! A call to an external plugin leaves the kernel as a [`ForwardRequest`] and
//! comes back as a [`ForwardOutcome`]; lifecycle changes leave as
//! [`LifecycleEvent`]s that a [`LifecycleHook`] takes at its own pace.
//!
//! `ExecutionKind` comes from the manifest member `execution`: `inprocess`
//! (the default) or `process` (a local binary with `entrypoint`, `args` and
//! `timeout_ms`).

use vstd::prelude::*;
use vstd::string::*;
use crate::calls::TicketId;
use crate::deps;
use crate::identity::InstanceId;
use crate::json::{Json, JsonV};
use crate::text;
use crate::text::Text;

verus! {

#[derive(Debug)]
pub enum ExecutionKind {
    InProcess,
    External { entrypoint: String, args: Vec<String>, timeout_ms: u64 },
}

pub enum ExecutionV {
    InProcess,
    External { entrypoint: Text, args: Seq<Text>, timeout_ms: u64 },
}

impl View for ExecutionKind {
    type V = ExecutionV;

    open spec fn view(&self) -> ExecutionV {
        match self {
            ExecutionKind::InProcess => ExecutionV::InProcess,
            ExecutionKind::External { entrypoint, args, timeout_ms } => ExecutionV::External {
                entrypoint: entrypoint@,
                args: args.deep_view(),
                timeout_ms: *timeout_ms,
            },
        }
    }
}

impl DeepView for ExecutionKind {
    type V = ExecutionV;

    open spec fn deep_view(&self) -> ExecutionV {
        self@
    }
}

impl ExecutionKind {
    pub fn is_external(&self) -> (r: bool)
        ensures
            r == (self@ is External),
    {
        matches!(self, ExecutionKind::External { .. })
    }

    pub fn timeout_ms(&self) -> (r: u64)
        ensures
            r == match self@ {
                ExecutionV::InProcess => 0,
                ExecutionV::External { timeout_ms, .. } => timeout_ms,
            },
    {
        match self {
            ExecutionKind::InProcess => 0,
            ExecutionKind::External { timeout_ms, .. } => *timeout_ms,
        }
    }

    pub fn copy(&self) -> (r: ExecutionKind)
        ensures
            r@ == self@,
    {
        match self {
            ExecutionKind::InProcess => ExecutionKind::InProcess,
            ExecutionKind::External { entrypoint, args, timeout_ms } => ExecutionKind::External {
                entrypoint: entrypoint.clone(),
                args: text::copy_texts(args),
                timeout_ms: *timeout_ms,
            },
        }
    }
}

/// The strings among a list of values, in order.
pub open spec fn strings_of(vs: Seq<JsonV>) -> Seq<Text>
    decreases vs.len(),
{
    if vs.len() == 0 {
        Seq::empty()
    } else {
        match vs.last().str_of() {
            Some(s) => strings_of(vs.drop_last()).push(s),
            None => strings_of(vs.drop_last()),
        }
    }
}

/// What the manifest member `execution` declares, or what is wrong with it.
pub open spec fn declared_execution(v: Option<JsonV>) -> Result<ExecutionV, Text> {
    match v {
        None => Ok(ExecutionV::InProcess),
        Some(JsonV::Str(s)) => if s == "inprocess"@ || s == "in-process"@ {
            Ok(ExecutionV::InProcess)
        } else if s == "process"@ {
            Err("'execution: process' exige objeto com entrypoint"@)
        } else {
            Err("execution desconhecido: "@ + text::quoted(s))
        },
        Some(JsonV::Object(ms)) => {
            let o = JsonV::Object(ms);
            let kind = match o.str_at("kind"@) {
                Some(k) => k,
                None => "inprocess"@,
            };
            if kind == "inprocess"@ || kind == "in-process"@ {
                Ok(ExecutionV::InProcess)
            } else if kind == "process"@ {
                let entrypoint = match o.str_at("entrypoint"@) {
                    Some(e) => text::trimmed(e),
                    None => Seq::empty(),
                };
                let args = match o.get("args"@) {
                    Some(JsonV::Array(a)) => strings_of(a),
                    _ => Seq::empty(),
                };
                let timeout_ms = match o.u64_at("timeout_ms"@) {
                    Some(n) => n,
                    None => 5000,
                };
                if entrypoint.len() == 0 {
                    Err("execution.process exige 'entrypoint'"@)
                } else if timeout_ms == 0 || timeout_ms > 300_000 {
                    Err("timeout_ms fora de [1, 300000]"@)
                } else {
                    Ok(ExecutionV::External { entrypoint, args, timeout_ms })
                }
            } else {
                Err("execution.kind desconhecido: "@ + text::quoted(kind))
            }
        },
        Some(_) => Err("'execution' deve ser string ou objeto"@),
    }
}

/// The strings among a list of values.
fn strings(a: &Vec<Json>) -> (r: Vec<String>)
    ensures
        r.deep_view() == strings_of(a.deep_view()),
{
    let ghost vs = a.deep_view();
    let mut out: Vec<String> = Vec::new();
    let mut i: usize = 0;
    proof {
        assert(vs.take(0) =~= Seq::<JsonV>::empty());
        assert(out.deep_view() =~= Seq::<Text>::empty());
    }
    while i < a.len()
        invariant
            i <= a.len(),
            vs == a.deep_view(),
            out.deep_view() == strings_of(vs.take(i as int)),
        decreases a.len() - i,
    {
        proof {
            assert(vs.take(i + 1).drop_last() =~= vs.take(i as int));
            assert(vs.take(i + 1).last() == a[i as int]@);
        }
        if let Some(s) = a[i].as_str() {
            let ghost before = out.deep_view();
            out.push(s.clone());
            assert(out.deep_view() =~= before.push(s@));
        }
        i += 1;
    }
    proof {
        assert(vs.take(vs.len() as int) =~= vs);
    }
    out
}

/// Reads the manifest member `execution`.
pub fn parse_execution(v: Option<&Json>) -> (r: Result<ExecutionKind, String>)
    ensures
        deps::outcome(r) == declared_execution(deps::opt_json(v)),
{
    let v = match v {
        None => return Ok(ExecutionKind::InProcess),
        Some(v) => v,
    };
    if let Some(s) = v.as_str() {
        return if text::same(s, "inprocess") || text::same(s, "in-process") {
            Ok(ExecutionKind::InProcess)
        } else if text::same(s, "process") {
            Err("'execution: process' exige objeto com entrypoint".to_owned())
        } else {
            let q = text::quote(s);
            Err(text::join2("execution desconhecido: ", &q))
        };
    }
    if v.as_object().is_none() {
        return Err("'execution' deve ser string ou objeto".to_owned());
    }
    let kind = match v.str_at("kind") {
        Some(k) => k.clone(),
        None => "inprocess".to_owned(),
    };
    if text::same(&kind, "inprocess") || text::same(&kind, "in-process") {
        return Ok(ExecutionKind::InProcess);
    }
    if !text::same(&kind, "process") {
        let q = text::quote(&kind);
        return Err(text::join2("execution.kind desconhecido: ", &q));
    }
    let entrypoint = match v.str_at("entrypoint") {
        Some(e) => text::trim(e),
        None => String::new(),
    };
    if entrypoint.as_str().is_empty() {
        return Err("execution.process exige 'entrypoint'".to_owned());
    }
    let none: Vec<String> = Vec::new();
    assert(none.deep_view() =~= Seq::<Text>::empty());
    let args = match v.get("args") {
        Some(a) => match a.as_array() {
            Some(a) => strings(a),
            None => none,
        },
        None => none,
    };
    let timeout_ms: u64 = match v.u64_at("timeout_ms") {
        Some(n) => n,
        None => 5000,
    };
    if timeout_ms == 0 || timeout_ms > 300_000 {
        return Err("timeout_ms fora de [1, 300000]".to_owned());
    }
    Ok(ExecutionKind::External { entrypoint, args, timeout_ms })
}

/// Delivery request to an external plugin.
#[derive(Debug)]
pub struct ForwardRequest {
    pub ticket: TicketId,
    pub cap: String,
    pub input: Json,
    pub logical: String,
    pub instance: InstanceId,
    pub generation: u64,
    pub timeout_ms: u64,
}

pub struct ForwardRequestV {
    pub ticket: TicketId,
    pub cap: Text,
    pub input: JsonV,
    pub logical: Text,
    pub instance: InstanceId,
    pub generation: u64,
    pub timeout_ms: u64,
}

impl View for ForwardRequest {
    type V = ForwardRequestV;

    open spec fn view(&self) -> ForwardRequestV {
        ForwardRequestV {
            ticket: self.ticket,
            cap: self.cap@,
            input: self.input@,
            logical: self.logical@,
            instance: self.instance,
            generation: self.generation,
            timeout_ms: self.timeout_ms,
        }
    }
}

#[derive(Debug)]
pub enum ForwardError {
    Cancelled,
    Timeout,
    /// The session or process vanished: no false success, no retry.
    Gone(String),
    Protocol(String),
}

pub enum ForwardErrorV {
    Cancelled,
    Timeout,
    Gone(Text),
    Protocol(Text),
}

impl View for ForwardError {
    type V = ForwardErrorV;

    open spec fn view(&self) -> ForwardErrorV {
        match self {
            ForwardError::Cancelled => ForwardErrorV::Cancelled,
            ForwardError::Timeout => ForwardErrorV::Timeout,
            ForwardError::Gone(s) => ForwardErrorV::Gone(s@),
            ForwardError::Protocol(s) => ForwardErrorV::Protocol(s@),
        }
    }
}

impl ForwardErrorV {
    pub open spec fn code(self) -> Text {
        match self {
            ForwardErrorV::Cancelled => "cancelled"@,
            ForwardErrorV::Timeout => "deadline-exceeded"@,
            ForwardErrorV::Gone(_) => "outcome-unknown"@,
            ForwardErrorV::Protocol(_) => "internal"@,
        }
    }

    /// The failure as shown in messages.
    pub open spec fn shown(self) -> Text {
        match self {
            ForwardErrorV::Cancelled => "Cancelled"@,
            ForwardErrorV::Timeout => "Timeout"@,
            ForwardErrorV::Gone(s) => "Gone("@ + text::quoted(s) + ")"@,
            ForwardErrorV::Protocol(s) => "Protocol("@ + text::quoted(s) + ")"@,
        }
    }
}

impl ForwardError {
    pub fn code(&self) -> (r: &'static str)
        ensures
            r@ == self@.code(),
    {
        match self {
            ForwardError::Cancelled => "cancelled",
            ForwardError::Timeout => "deadline-exceeded",
            ForwardError::Gone(_) => "outcome-unknown",
            ForwardError::Protocol(_) => "internal",
        }
    }

    /// The failure as shown in messages.
    pub fn shown(&self) -> (r: String)
        ensures
            r@ == self@.shown(),
    {
        match self {
            ForwardError::Cancelled => "Cancelled".to_owned(),
            ForwardError::Timeout => "Timeout".to_owned(),
            ForwardError::Gone(s) => {
                let q = text::quote(s);
                let mut r = text::join2("Gone(", &q);
                r.append(")");
                r
            },
            ForwardError::Protocol(s) => {
                let q = text::quote(s);
                let mut r = text::join2("Protocol(", &q);
                r.append(")");
                r
            },
        }
    }
}

/// Transported result: success, remote business error (code preserved), or
/// delivery failure.
#[derive(Debug)]
pub enum ForwardOutcome {
    Replied(Json),
    Refused { code: String, message: String },
    Failed(ForwardError),
}

pub enum ForwardOutcomeV {
    Replied(JsonV),
    Refused { code: Text, message: Text },
    Failed(ForwardErrorV),
}

impl View for ForwardOutcome {
    type V = ForwardOutcomeV;

    open spec fn view(&self) -> ForwardOutcomeV {
        match self {
            ForwardOutcome::Replied(v) => ForwardOutcomeV::Replied(v@),
            ForwardOutcome::Refused { code, message } => ForwardOutcomeV::Refused {
                code: code@,
                message: message@,
            },
            ForwardOutcome::Failed(e) => ForwardOutcomeV::Failed(e@),
        }
    }
}

/// Lifecycle events for the host.
#[derive(Debug)]
pub enum LifecycleEvent {
    Activated {
        logical: String,
        instance: u64,
        generation: u64,
        entrypoint: String,
        args: Vec<String>,
        timeout_ms: u64,
    },
    Withdrawn { logical: String, instance: u64, generation: u64 },
    Removed { logical: String },
}

pub enum LifecycleV {
    Activated {
        logical: Text,
        instance: u64,
        generation: u64,
        entrypoint: Text,
        args: Seq<Text>,
        timeout_ms: u64,
    },
    Withdrawn { logical: Text, instance: u64, generation: u64 },
    Removed { logical: Text },
}

impl View for LifecycleEvent {
    type V = LifecycleV;

    open spec fn view(&self) -> LifecycleV {
        match self {
            LifecycleEvent::Activated {
                logical,
                instance,
                generation,
                entrypoint,
                args,
                timeout_ms,
            } => LifecycleV::Activated {
                logical: logical@,
                instance: *instance,
                generation: *generation,
                entrypoint: entrypoint@,
                args: args.deep_view(),
                timeout_ms: *timeout_ms,
            },
            LifecycleEvent::Withdrawn { logical, instance, generation } => LifecycleV::Withdrawn {
                logical: logical@,
                instance: *instance,
                generation: *generation,
            },
            LifecycleEvent::Removed { logical } => LifecycleV::Removed { logical: logical@ },
        }
    }
}

impl DeepView for LifecycleEvent {
    type V = LifecycleV;

    open spec fn deep_view(&self) -> LifecycleV {
        self@
    }
}

/// Takes lifecycle events without blocking the kernel.
pub trait LifecycleHook: Send + Sync {
    fn on_lifecycle(&self, ev: LifecycleEvent);
}

/// One entrypoint argument with `{sock}` and then `{id}` substituted.
pub open spec fn expanded(arg: Text, sock: Text, id: Text) -> Text {
    text::replaced(text::replaced(arg, "{sock}"@, sock), "{id}"@, id)
}

/// Substitutes `{sock}` and `{id}` in the entrypoint arguments.
pub fn expand_args(args: &[String], sock: &str, id: &str) -> (r: Vec<String>)
    ensures
        r.deep_view() == args@.map_values(|a: String| expanded(a@, sock@, id@)),
{
    proof {
        reveal_strlit("{sock}");
        reveal_strlit("{id}");
    }
    let mut out: Vec<String> = Vec::new();
    let mut i: usize = 0;
    while i < args.len()
        invariant
            i <= args.len(),
            out.len() == i,
            "{sock}"@.len() > 0,
            "{id}"@.len() > 0,
            forall|j: int| 0 <= j < i ==> out[j]@ == expanded(args@[j]@, sock@, id@),
        decreases args.len() - i,
    {
        let a = text::replace(&args[i], "{sock}", sock);
        out.push(text::replace(&a, "{id}", id));
        i += 1;
    }
    assert(out.deep_view() =~= args@.map_values(|a: String| expanded(a@, sock@, id@)));
    out
}

} // verus!
