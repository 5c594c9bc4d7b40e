//! Fan-out dispatch: resolving each target to a request, and aggregating the
//! per-target transport outcomes into an ordered report. Each target is
//! attempted independently; a failure of one never touches the others, and
//! the report preserves the input target order. An empty target list is
//! reported distinctly, as "no targets", not as an empty success and not as
//! an error.

use vstd::prelude::*;

use crate::config::{api_key_for, spec_api_key, Config};
use crate::resolve::{resolve_url, spec_resolve_url};
use crate::text::{append_str, append_tab_indent, chars_string, tab_indent};

verus! {

/// The action fanned out to every target.
#[derive(Clone, Copy, Debug, PartialEq, Eq)]
pub enum DispatchAction {
    StatusFetch,
    UpgradeTrigger,
}

/// The HTTP method a planned request uses.
#[derive(Clone, Copy, Debug, PartialEq, Eq)]
pub enum HttpMethod {
    Get,
    Post,
}

/// The path appended to a target's base URL for the action.
pub open spec fn spec_action_path(a: DispatchAction) -> Seq<char> {
    match a {
        DispatchAction::StatusFetch => "/status"@,
        DispatchAction::UpgradeTrigger => "/packages/full-upgrade"@,
    }
}

/// The method used for the action.
pub open spec fn spec_action_method(a: DispatchAction) -> HttpMethod {
    match a {
        DispatchAction::StatusFetch => HttpMethod::Get,
        DispatchAction::UpgradeTrigger => HttpMethod::Post,
    }
}

/// One request, ready for the HTTP capability: the original target string,
/// the full URL, the method, and the credential to attach, if one is
/// configured for exactly this target.
pub struct RequestPlan {
    pub target: String,
    pub url: String,
    pub method: HttpMethod,
    pub api_key: Option<String>,
}

/// Plan the request for one target: resolve the target to its base URL,
/// append the action's path, and look up the target's credential.
pub fn plan_request(target: &String, action: DispatchAction, config: &Config) -> (p: RequestPlan)
    ensures
        p.target@ == target@,
        p.url@ == spec_resolve_url(target@) + spec_action_path(action),
        p.method == spec_action_method(action),
        match p.api_key {
            Some(k) => spec_api_key(config@, target@) == Some(k@),
            None => spec_api_key(config@, target@) == None::<Seq<char>>,
        },
{
    let base = resolve_url(target.as_str());
    let url = match action {
        DispatchAction::StatusFetch => base.concat("/status"),
        DispatchAction::UpgradeTrigger => base.concat("/packages/full-upgrade"),
    };
    let method = match action {
        DispatchAction::StatusFetch => HttpMethod::Get,
        DispatchAction::UpgradeTrigger => HttpMethod::Post,
    };
    RequestPlan { target: target.clone(), url, method, api_key: api_key_for(config, target) }
}

/// What the HTTP capability hands back for one target: a response with its
/// transport status line and body, or a failure it could not complete
/// (connection refused, timeout, name resolution).
pub enum TransportResult {
    Response { status: String, body: Option<String> },
    Failed { error: String },
}

/// Abstract value of a `TransportResult`.
pub ghost enum TransportView {
    Response { status: Seq<char>, body: Option<Seq<char>> },
    Failed { error: Seq<char> },
}

impl View for TransportResult {
    type V = TransportView;

    open spec fn view(&self) -> TransportView {
        match self {
            TransportResult::Response { status, body } => TransportView::Response {
                status: status@,
                body: match body {
                    Some(b) => Some(b@),
                    None => None,
                },
            },
            TransportResult::Failed { error } => TransportView::Failed { error: error@ },
        }
    }
}

/// What `serde_json` renders for a given body text: the pretty-printed form
/// of the JSON value the body parses to, or `None` where the body is not
/// well-formed JSON (or its value cannot be re-serialized).
pub uninterp spec fn json_pretty_of(s: Seq<char>) -> Option<Seq<char>>;

/// Relies on `serde_json::from_str::<serde_json::Value>` followed by
/// `serde_json::to_string_pretty`: both are deterministic functions of the
/// input text (with default features, object keys are kept in a sorted map),
/// so the pretty-printed form is a function of the body alone.
#[verifier::external_body]
fn pretty_json(body: &str) -> (r: Option<String>)
    ensures
        match r {
            Some(p) => json_pretty_of(body@) == Some(p@),
            None => json_pretty_of(body@) == None::<Seq<char>>,
        },
{
    match serde_json::from_str::<serde_json::Value>(body) {
        Ok(v) => serde_json::to_string_pretty(&v).ok(),
        Err(_) => None,
    }
}

/// The fallback body text when a response body is absent or not parsable as
/// JSON: the two actions report it differently, since a successful upgrade
/// trigger may legitimately return no usable body.
pub open spec fn spec_fallback(a: DispatchAction) -> Seq<char> {
    match a {
        DispatchAction::StatusFetch => "Could not parse response as JSON"@,
        DispatchAction::UpgradeTrigger => "Upgrade triggered successfully"@,
    }
}

/// The body text shown for a response: its pretty-printed JSON, or the
/// action's fallback when the body is absent or malformed.
pub open spec fn spec_body_text(a: DispatchAction, body: Option<Seq<char>>) -> Seq<char> {
    match body {
        Some(b) => match json_pretty_of(b) {
            Some(p) => p,
            None => spec_fallback(a),
        },
        None => spec_fallback(a),
    }
}

/// The report entry for one target: on a response, the transport status and
/// the rendered body; on a transport failure, an error marker carrying the
/// failure text, with no body.
pub ghost struct OutcomeView {
    pub target: Seq<char>,
    pub status: Seq<char>,
    pub body: Option<Seq<char>>,
}

/// The outcome recorded for a target, given what the transport handed back.
pub open spec fn spec_outcome(
    target: Seq<char>,
    a: DispatchAction,
    r: TransportView,
) -> OutcomeView {
    match r {
        TransportView::Response { status, body } => OutcomeView {
            target,
            status,
            body: Some(spec_body_text(a, body)),
        },
        TransportView::Failed { error } => OutcomeView {
            target,
            status: "Error: "@ + error,
            body: None,
        },
    }
}

/// One per-target outcome of a fan-out dispatch.
pub struct DispatchOutcome {
    pub target: String,
    pub status: String,
    pub body: Option<String>,
}

impl View for DispatchOutcome {
    type V = OutcomeView;

    open spec fn view(&self) -> OutcomeView {
        OutcomeView {
            target: self.target@,
            status: self.status@,
            body: match self.body {
                Some(b) => Some(b@),
                None => None,
            },
        }
    }
}

/// Record the outcome for one target.
pub fn target_outcome(target: &String, action: DispatchAction, result: &TransportResult) -> (o:
    DispatchOutcome)
    ensures
        o@ == spec_outcome(target@, action, result@),
{
    match result {
        TransportResult::Response { status, body } => {
            let text = match body {
                Some(b) => match pretty_json(b.as_str()) {
                    Some(p) => p,
                    None => fallback_text(action),
                },
                None => fallback_text(action),
            };
            DispatchOutcome { target: target.clone(), status: status.clone(), body: Some(text) }
        },
        TransportResult::Failed { error } => {
            let mut status = String::from_str("Error: ");
            status.append(error.as_str());
            DispatchOutcome { target: target.clone(), status, body: None }
        },
    }
}

/// The action's fallback body text, executably.
fn fallback_text(a: DispatchAction) -> (r: String)
    ensures
        r@ == spec_fallback(a),
{
    match a {
        DispatchAction::StatusFetch => String::from_str("Could not parse response as JSON"),
        DispatchAction::UpgradeTrigger => String::from_str("Upgrade triggered successfully"),
    }
}

/// The aggregated result of one fan-out dispatch: either there was nothing
/// to dispatch to — reported distinctly, and no error — or one outcome per
/// target, in input order.
pub enum DispatchReport {
    NoTargets,
    Outcomes(Vec<DispatchOutcome>),
}

/// Aggregate the per-target transport results into the report: one outcome
/// per target, in input order, each determined by its own target and its own
/// transport result alone; an empty target list yields the distinct
/// "no targets" report.
pub fn dispatch_report(
    targets: &Vec<String>,
    action: DispatchAction,
    results: &Vec<TransportResult>,
) -> (r: DispatchReport)
    requires
        results@.len() == targets@.len(),
    ensures
        targets@.len() == 0 <==> r is NoTargets,
        r matches DispatchReport::Outcomes(v) ==> v@.len() == targets@.len() && forall|i: int|
            0 <= i < targets@.len() ==> (#[trigger] v@[i])@ == spec_outcome(
                targets@[i]@,
                action,
                results@[i]@,
            ),
{
    if targets.len() == 0 {
        return DispatchReport::NoTargets;
    }
    let mut v: Vec<DispatchOutcome> = Vec::new();
    let mut i: usize = 0;
    while i < targets.len()
        invariant
            i <= targets@.len(),
            results@.len() == targets@.len(),
            v@.len() == i,
            forall|j: int|
                0 <= j < i ==> (#[trigger] v@[j])@ == spec_outcome(
                    targets@[j]@,
                    action,
                    results@[j]@,
                ),
        decreases targets@.len() - i,
    {
        let o = target_outcome(&targets[i], action, &results[i]);
        v.push(o);
        i = i + 1;
    }
    DispatchReport::Outcomes(v)
}

/// An outcome carries no body exactly when its target's transport failed:
/// per-target failures are isolated in their own entry and never reshape
/// another target's outcome.
pub proof fn lemma_outcome_marks_failure(target: Seq<char>, a: DispatchAction, r: TransportView)
    ensures
        spec_outcome(target, a, r).body is None <==> r is Failed,
        spec_outcome(target, a, r).target == target,
{
}

/// The lines of the report for one outcome: `target<TAB>status`, and — when
/// there is a body — the body on a second line, indented into the status
/// column.
pub open spec fn spec_outcome_lines(o: OutcomeView) -> Seq<Seq<char>> {
    let first = o.target + seq!['\t'] + o.status;
    match o.body {
        Some(b) => if b.len() > 0 {
            seq![first, seq!['\t'] + tab_indent(b)]
        } else {
            seq![first]
        },
        None => seq![first],
    }
}

/// The lines of the report for a list of outcomes, in order.
pub open spec fn spec_report_lines(outs: Seq<OutcomeView>) -> Seq<Seq<char>>
    decreases outs.len(),
{
    if outs.len() == 0 {
        Seq::empty()
    } else {
        spec_outcome_lines(outs[0]) + spec_report_lines(outs.drop_first())
    }
}

/// `spec_report_lines` seen from the back.
proof fn lemma_report_lines_snoc(outs: Seq<OutcomeView>, o: OutcomeView)
    ensures
        spec_report_lines(outs.push(o)) == spec_report_lines(outs) + spec_outcome_lines(o),
    decreases outs.len(),
{
    if outs.len() == 0 {
        assert(outs.push(o)[0] == o);
        assert(outs.push(o).drop_first() =~= outs);
        assert(spec_report_lines(outs) == Seq::<Seq<char>>::empty());
        assert(spec_report_lines(outs.push(o)) == spec_outcome_lines(o) + spec_report_lines(
            outs,
        ));
        assert(spec_outcome_lines(o) + spec_report_lines(outs) =~= spec_report_lines(outs)
            + spec_outcome_lines(o));
    } else {
        lemma_report_lines_snoc(outs.drop_first(), o);
        assert(outs.push(o)[0] == outs[0]);
        assert(outs.push(o).drop_first() =~= outs.drop_first().push(o));
        assert(spec_outcome_lines(outs[0]) + (spec_report_lines(outs.drop_first())
            + spec_outcome_lines(o)) =~= (spec_outcome_lines(outs[0]) + spec_report_lines(
            outs.drop_first(),
        )) + spec_outcome_lines(o));
    }
}

/// Render the whole report as lines for a tab-aligned table: the distinct
/// "no targets" notice, or a header followed by each outcome's lines in
/// input order.
#[verifier::loop_isolation(false)]
pub fn render_report(r: &DispatchReport) -> (lines: Vec<String>)
    ensures
        match r {
            DispatchReport::NoTargets => lines@.map_values(|s: String| s@) == seq![
                "No targets found."@,
            ],
            DispatchReport::Outcomes(v) => lines@.map_values(|s: String| s@) == seq![
                "TARGET\tSTATUS"@,
            ] + spec_report_lines(v@.map_values(|o: DispatchOutcome| o@)),
        },
{
    match r {
        DispatchReport::NoTargets => {
            let mut lines: Vec<String> = Vec::new();
            lines.push(String::from_str("No targets found."));
            proof {
                assert(lines@.map_values(|s: String| s@) =~= seq!["No targets found."@]);
            }
            lines
        },
        DispatchReport::Outcomes(v) => {
            let ghost ovs = v@.map_values(|o: DispatchOutcome| o@);
            let mut lines: Vec<String> = Vec::new();
            lines.push(String::from_str("TARGET\tSTATUS"));
            proof {
                assert(ovs.subrange(0, 0) =~= Seq::<OutcomeView>::empty());
                assert(lines@.map_values(|s: String| s@) =~= seq!["TARGET\tSTATUS"@]
                    + spec_report_lines(ovs.subrange(0, 0)));
            }
            let mut i: usize = 0;
            while i < v.len()
                invariant
                    i <= v@.len(),
                    lines@.map_values(|s: String| s@) == seq!["TARGET\tSTATUS"@]
                        + spec_report_lines(ovs.subrange(0, i as int)),
                decreases v@.len() - i,
            {
                let o = &v[i];
                proof {
                    assert(ovs[i as int] == v@[i as int]@);
                }
                let mut first: Vec<char> = Vec::new();
                append_str(&mut first, o.target.as_str());
                first.push('\t');
                append_str(&mut first, o.status.as_str());
                proof {
                    assert(first@ =~= ovs[i as int].target + seq!['\t'] + ovs[i as int].status);
                }
                let ghost lm0 = lines@.map_values(|s: String| s@);
                let fs = chars_string(&first);
                assert(fs@ == first@);
                lines.push(fs);
                proof {
                    assert(lines@.map_values(|s: String| s@) =~= lm0.push(first@));
                }
                let ghost lm1 = lines@.map_values(|s: String| s@);
                match &o.body {
                    Some(b) => {
                        if b.as_str().unicode_len() > 0 {
                            let mut second: Vec<char> = Vec::new();
                            second.push('\t');
                            append_tab_indent(&mut second, b.as_str());
                            proof {
                                assert(second@ =~= seq!['\t'] + tab_indent(b@));
                            }
                            let ss = chars_string(&second);
                            assert(ss@ == second@);
                            lines.push(ss);
                            proof {
                                assert(lines@.map_values(|s: String| s@) =~= lm1.push(second@));
                                assert(spec_outcome_lines(ovs[i as int]) =~= seq![
                                    first@,
                                    second@,
                                ]);
                            }
                        } else {
                            proof {
                                assert(spec_outcome_lines(ovs[i as int]) =~= seq![first@]);
                            }
                        }
                    },
                    None => {
                        proof {
                            assert(spec_outcome_lines(ovs[i as int]) =~= seq![first@]);
                        }
                    },
                }
                proof {
                    lemma_report_lines_snoc(ovs.subrange(0, i as int), ovs[i as int]);
                    assert(ovs.subrange(0, i + 1) =~= ovs.subrange(0, i as int).push(
                        ovs[i as int],
                    ));
                    assert(lines@.map_values(|s: String| s@) =~= seq!["TARGET\tSTATUS"@]
                        + spec_report_lines(ovs.subrange(0, i + 1)));
                }
                i = i + 1;
            }
            proof {
                assert(ovs.subrange(0, ovs.len() as int) =~= ovs);
            }
            lines
        },
    }
}

/// Assemble the target list of one operator command: the explicit targets,
/// then any discovered ones; when that leaves nothing, the configured node
/// addresses stand in.
pub fn assemble_targets(explicit: Vec<String>, discovered: Vec<String>, config: &Config) -> (r:
    Vec<String>)
    ensures
        explicit@.len() + discovered@.len() > 0 ==> r@.map_values(|s: String| s@) == explicit@.map_values(
            |s: String| s@,
        ) + discovered@.map_values(|s: String| s@),
        explicit@.len() + discovered@.len() == 0 ==> r@.map_values(|s: String| s@) == config@.map_values(
            |n: crate::config::NodeView| n.address,
        ),
{
    let mut r = explicit;
    let mut discovered = discovered;
    let ghost e0 = r@.map_values(|s: String| s@);
    let ghost d0 = discovered@.map_values(|s: String| s@);
    while discovered.len() > 0
        invariant
            e0 + d0 == r@.map_values(|s: String| s@) + discovered@.map_values(|s: String| s@),
        decreases discovered@.len(),
    {
        let ghost rb = r@.map_values(|s: String| s@);
        let ghost db = discovered@.map_values(|s: String| s@);
        let x = discovered.remove(0);
        r.push(x);
        proof {
            assert(r@.map_values(|s: String| s@) =~= rb.push(db[0]));
            assert(discovered@.map_values(|s: String| s@) =~= db.drop_first());
            assert(rb.push(db[0]) + db.drop_first() =~= rb + db);
        }
    }
    if r.len() == 0 {
        let mut out: Vec<String> = Vec::new();
        let mut i: usize = 0;
        while i < config.nodes.len()
            invariant
                i <= config.nodes@.len(),
                out@.map_values(|s: String| s@) =~= config@.map_values(
                    |n: crate::config::NodeView| n.address,
                ).subrange(0, i as int),
            decreases config.nodes@.len() - i,
        {
            proof {
                assert(config@[i as int] == config.nodes@[i as int]@);
                assert(config@.map_values(|n: crate::config::NodeView| n.address)[i as int]
                    == config.nodes@[i as int]@.address);
            }
            let ghost before = out@.map_values(|s: String| s@);
            let a = config.nodes[i].address.clone();
            assert(a@ == config.nodes@[i as int]@.address);
            out.push(a);
            i = i + 1;
            proof {
                assert(out@.map_values(|s: String| s@) =~= before.push(a@));
                assert(config@.map_values(|n: crate::config::NodeView| n.address).subrange(
                    0,
                    i as int,
                ) =~= config@.map_values(|n: crate::config::NodeView| n.address).subrange(
                    0,
                    i - 1,
                ).push(config@.map_values(|n: crate::config::NodeView| n.address)[i - 1]));
                assert(out@.map_values(|s: String| s@) =~= config@.map_values(
                    |n: crate::config::NodeView| n.address,
                ).subrange(0, i as int));
            }
        }
        proof {
            assert(config@.map_values(|n: crate::config::NodeView| n.address).subrange(
                0,
                config@.len() as int,
            ) =~= config@.map_values(|n: crate::config::NodeView| n.address));
            assert(e0 + d0 =~= Seq::<Seq<char>>::empty() + Seq::<Seq<char>>::empty());
            assert(e0.len() == 0 && d0.len() == 0);
        }
        out
    } else {
        proof {
            assert(discovered@.map_values(|s: String| s@) =~= Seq::<Seq<char>>::empty());
            assert(r@.map_values(|s: String| s@) + Seq::<Seq<char>>::empty() =~= r@.map_values(
                |s: String| s@,
            ));
        }
        r
    }
}

} // verus!
