//! What is handed in and what is handed out is told in full by its content: every text, number
//! and list, in its place.

use crate::balance::endpoint_views;
use crate::cloud::{cloud_views, node_views, CloudIngress, LoadBalancerService, Node, NodeStatus};
use crate::failure::{result_view, Failure, FailureView};
use crate::iptables::IptablesManager;
use crate::loadbalancer::{WatchAction, WatchActionView, WatchEvent, WatchEventView};
use crate::reconcile::{Answer, AnswerView, Call, CallView, Verdict, VerdictView};
use crate::rule::{
    line_views, LineView, Matching, MatchingView, NatLine, RuleView, Target, TargetView,
};
use crate::service::{
    ingress_views, service_views, IntOrString, IntOrStringView, LoadBalancerIngress, Service,
    ServiceView,
};
use crate::session::{
    step_views, Action, ActionView, Command, Invocation, Reply, ReplyView, Step, StepView,
};
use crate::text::{option_text, texts};
use vstd::prelude::*;

verus! {

/// A list of texts holds each text, in its place; an optional text is there where it is.
pub proof fn law_texts(words: Seq<String>, text: Option<String>)
    ensures
        texts(words).len() == words.len(),
        forall|i: int| 0 <= i < words.len() ==> #[trigger] texts(words)[i] == words[i]@,
        text is None ==> option_text(text) is None,
        text matches Some(t) ==> option_text(text) == Some(t@),
{
}

/// A list of endpoints holds each with its address and its port, in its place.
pub proof fn law_endpoint_content(endpoints: Seq<(String, u16)>, i: int)
    requires
        0 <= i < endpoints.len(),
    ensures
        endpoint_views(endpoints).len() == endpoints.len(),
        endpoint_views(endpoints)[i] == (endpoints[i].0@, endpoints[i].1),
{
}

/// A result is good or bad as it is, and an error has its context and its cause.
pub proof fn law_failure_content(failure: Failure)
    ensures
        failure@.context == failure.context@,
        failure@.cause == option_text(failure.cause),
        result_view(Err(failure)) == Err::<(), FailureView>(failure@),
        result_view(Ok(())) is Ok,
{
}

/// An action is what it says: its program and arguments, its path, its contents, its input, its
/// result.
pub proof fn law_action_content(action: Action, invocation: Invocation)
    ensures
        invocation@.program == invocation.program@,
        invocation@.args == texts(invocation.args@),
        match action {
            Action::Run(invocation) => action@ == ActionView::Run(invocation@),
            Action::Probe(path) => action@ == ActionView::Probe(path@),
            Action::Write { path, contents } => action@ == (ActionView::Write {
                path: path@,
                contents: contents@,
            }),
            Action::TakeTracked => action@ == ActionView::TakeTracked,
            Action::Feed { invocation, input } => action@ == (ActionView::Feed {
                invocation: invocation@,
                input: input@,
            }),
            Action::Finish(result) => action@ == ActionView::Finish(result_view(result)),
        },
{
}

/// A step is what it says: its commands with what their failure means, its path, its program, its
/// input.
pub proof fn law_step_content(steps: Seq<Step>, i: int, command: Command)
    requires
        0 <= i < steps.len(),
    ensures
        command@.invocation == command.invocation@,
        command@.on_unrun == option_text(command.on_unrun),
        command@.on_reject == option_text(command.on_reject),
        step_views(steps).len() == steps.len(),
        match steps[i] {
            Step::Run(command) => step_views(steps)[i] == StepView::Run(command@),
            Step::Unless { check, even_if_unrun, otherwise } => step_views(steps)[i] == (
            StepView::Unless { check: check@, even_if_unrun, otherwise: otherwise@ }),
            Step::EnableSwitch { path } => step_views(steps)[i] == (StepView::EnableSwitch {
                path: path@,
            }),
            Step::EnsureRoute => step_views(steps)[i] == StepView::EnsureRoute,
            Step::PurgeTracked { program } => step_views(steps)[i] == (StepView::PurgeTracked {
                program: program@,
            }),
            Step::PurgeLeftovers { program } => step_views(steps)[i] == (
            StepView::PurgeLeftovers { program: program@ }),
            Step::Feed { invocation, input } => step_views(steps)[i] == (StepView::Feed {
                invocation: invocation@,
                input: input@,
            }),
        },
{
}

/// A reply is what it says.
pub proof fn law_reply_content(reply: Reply)
    ensures
        match reply {
            Reply::Unrun { cause } => reply@ == (ReplyView::Unrun { cause: cause@ }),
            Reply::Unfed { cause } => reply@ == (ReplyView::Unfed { cause: cause@ }),
            Reply::Unawaited { cause } => reply@ == (ReplyView::Unawaited { cause: cause@ }),
            Reply::Ran { success, silent, stdout, stderr } => reply@ == (ReplyView::Ran {
                success,
                silent,
                stdout: stdout@,
                stderr: stderr@,
            }),
            Reply::Handed { chains } => reply@ == (ReplyView::Handed { chains: texts(chains@) }),
        },
{
}

/// The proxy has the chains, the program, the tracked chains and the abilities that it has, and
/// the rules depend on these.
pub proof fn law_manager_content(manager: IptablesManager)
    ensures
        manager@.services_chain == manager.services_chain@,
        manager@.nodeports_chain == manager.nodeports_chain@,
        manager@.iptables_cmd == manager.iptables_cmd@,
        manager@.sep_chains == texts(manager.sep_chains@),
        manager@.recent_available == manager.recent_available,
        manager@.hashlimit_available == manager.hashlimit_available,
        manager.settings() == manager@.settings(),
        manager@.settings().services_chain == manager.services_chain@,
        manager@.settings().nodeports_chain == manager.nodeports_chain@,
        manager@.settings().recent_available == manager.recent_available,
        manager@.settings().hashlimit_available == manager.hashlimit_available,
{
}

/// A line is what it says: the chain that it declares, or its rule with every condition and the
/// target.
pub proof fn law_line_content(lines: Seq<NatLine>, i: int)
    requires
        0 <= i < lines.len(),
    ensures
        line_views(lines).len() == lines.len(),
        match lines[i] {
            NatLine::Chain(chain) => line_views(lines)[i] == LineView::Chain(chain@),
            NatLine::Append(rule) => line_views(lines)[i] == LineView::Append(
                RuleView {
                    chain: rule.chain@,
                    destination: option_text(rule.destination),
                    protocol: option_text(rule.protocol),
                    dport: match rule.dport {
                        Some(port) => Some(port as nat),
                        None => None,
                    },
                    matching: match rule.matching {
                        Matching::Any => MatchingView::Any,
                        Matching::RecentSet { name } => MatchingView::RecentSet { name: name@ },
                        Matching::RecentCheck { name, seconds } => MatchingView::RecentCheck {
                            name: name@,
                            seconds: seconds as int,
                        },
                        Matching::Connmark { mark } => MatchingView::Connmark { mark: mark as nat },
                        Matching::Statistic { weight } => MatchingView::Statistic {
                            weight: weight as nat,
                        },
                    },
                    target: match rule.target {
                        Target::Continue => TargetView::Continue,
                        Target::Jump { chain } => TargetView::Jump { chain: chain@ },
                        Target::Dnat { ip, port } => TargetView::Dnat {
                            ip: ip@,
                            port: port as nat,
                        },
                        Target::SetMark { mark } => TargetView::SetMark { mark: mark as nat },
                    },
                    comment: option_text(rule.comment),
                },
            ),
        },
{
}

/// A service is what it says, and so is each of its ports.
pub proof fn law_service_content(services: Seq<Service>, i: int, k: int)
    requires
        0 <= i < services.len(),
        0 <= k < services[i].spec.ports@.len(),
    ensures
        service_views(services).len() == services.len(),
        ({
            let service = services[i];
            let content = service_views(services)[i];
            &&& content.name == service.metadata.name@
            &&& content.namespace == option_text(service.metadata.namespace)
            &&& content.annotations == match service.metadata.annotations {
                Some(annotations) => Some(annotations@),
                None => None,
            }
            &&& content.cluster_ip == option_text(service.spec.cluster_ip)
            &&& content.service_type == service.spec.service_type
            &&& content.session_affinity == option_text(service.spec.session_affinity)
            &&& content.session_affinity_config == service.spec.session_affinity_config
            &&& content.ports.len() == service.spec.ports@.len()
            &&& says_port(service, content, k)
            &&& match service.status {
                Some(status) => content.status matches Some(shown) && {
                    &&& shown.conditions == match status.conditions {
                        Some(conditions) => Some(conditions@),
                        None => None,
                    }
                    &&& shown.load_balancer == match status.load_balancer {
                        Some(balancer) => Some(ingress_views(balancer.ingress@)),
                        None => None,
                    }
                },
                None => content.status is None,
            }
        }),
{
}

/// Whether port `k` of the content is that of the service.
pub open spec fn says_port(service: Service, content: ServiceView, k: int) -> bool {
    let port = service.spec.ports@[k];
    let said = content.ports[k];
    &&& said.name == option_text(port.name)
    &&& said.port == port.port
    &&& said.protocol == option_text(port.protocol)
    &&& said.node_port == port.node_port
    &&& match port.target_port {
        Some(IntOrString::Int(i)) => said.target_port == Some(IntOrStringView::Int(i as int)),
        Some(IntOrString::String(text)) => said.target_port == Some(
            IntOrStringView::String(text@),
        ),
        None => said.target_port is None,
    }
}

/// A point at which traffic is taken is what it says, to the service as to the provider.
pub proof fn law_ingress_content(
    shown: Seq<LoadBalancerIngress>,
    given: Seq<CloudIngress>,
    i: int,
    j: int,
)
    requires
        0 <= i < shown.len(),
        0 <= j < given.len(),
    ensures
        ingress_views(shown).len() == shown.len(),
        ingress_views(shown)[i].ip == option_text(shown[i].ip),
        ingress_views(shown)[i].hostname == option_text(shown[i].hostname),
        ingress_views(shown)[i].ip_mode == option_text(shown[i].ip_mode),
        shown[i].ports is None <==> ingress_views(shown)[i].ports is None,
        shown[i].ports matches Some(ports) ==> ingress_views(shown)[i].ports == Some(ports@),
        cloud_views(given).len() == given.len(),
        cloud_views(given)[j].ip == option_text(given[j].ip),
        cloud_views(given)[j].hostname == option_text(given[j].hostname),
{
}

/// A request to the provider is what it says, and so is each of its ports.
pub proof fn law_request_content(request: LoadBalancerService, k: int)
    requires
        0 <= k < request.ports@.len(),
    ensures
        request@.namespace == request.namespace@,
        request@.name == request.name@,
        request@.cluster_name == request.cluster_name@,
        request@.node_addresses == texts(request.node_addresses@),
        request@.session_affinity == option_text(request.session_affinity),
        request@.annotations == request.annotations@,
        request@.ports.len() == request.ports@.len(),
        request@.ports[k].name == option_text(request.ports@[k].name),
        request@.ports[k].protocol == request.ports@[k].protocol@,
        request@.ports[k].port == request.ports@[k].port,
        request@.ports[k].node_port == request.ports@[k].node_port,
{
}

/// A node has the addresses that it has, with their kinds.
pub proof fn law_node_content(nodes: Seq<Node>, i: int, k: int)
    requires
        0 <= i < nodes.len(),
    ensures
        node_views(nodes).len() == nodes.len(),
        match nodes[i].status {
            Some(NodeStatus { addresses: Some(addresses) }) => {
                &&& node_views(nodes)[i].len() == addresses@.len()
                &&& 0 <= k < addresses@.len() ==> node_views(nodes)[i][k] == (
                    addresses@[k].address_type@,
                    addresses@[k].address@,
                )
            },
            _ => node_views(nodes)[i].len() == 0,
        },
{
}

/// A call is what it says: whom it goes to, and what it carries.
pub proof fn law_call_content(call: Call)
    ensures
        match call {
            Call::ListServices => call@ == CallView::ListServices,
            Call::ListNodes => call@ == CallView::ListNodes,
            Call::Get { namespace, name } => call@ == (CallView::Get {
                namespace: namespace@,
                name: name@,
            }),
            Call::Update { namespace, name, service } => call@ == (CallView::Update {
                namespace: namespace@,
                name: name@,
                service: service@,
            }),
            Call::Ensure(request) => call@ == CallView::Ensure(request@),
            Call::Delete { namespace, name } => call@ == (CallView::Delete {
                namespace: namespace@,
                name: name@,
            }),
            Call::Report { namespace, name, result } => call@ == (CallView::Report {
                namespace: namespace@,
                name: name@,
                result: result_view(result),
            }),
            Call::Finish(result) => call@ == CallView::Finish(result_view(result)),
            Call::Conclude(Verdict::Drop) => call@ == CallView::Conclude(VerdictView::Drop),
            Call::Conclude(Verdict::Forget) => call@ == CallView::Conclude(VerdictView::Forget),
            Call::Conclude(Verdict::Retry(failure)) => call@ == CallView::Conclude(
                VerdictView::Retry(failure@),
            ),
        },
{
}

/// An answer is what it says.
pub proof fn law_answer_content(answer: Answer)
    ensures
        match answer {
            Answer::Failed { cause } => answer@ == (AnswerView::Failed { cause: cause@ }),
            Answer::Services(services) => answer@ == AnswerView::Services(service_views(services@)),
            Answer::Nodes(nodes) => answer@ == AnswerView::Nodes(node_views(nodes@)),
            Answer::Service(service) => answer@ == AnswerView::Service(service@),
            Answer::Balancer(ingress) => answer@ == AnswerView::Balancer(cloud_views(ingress@)),
            Answer::Done => answer@ == AnswerView::Done,
        },
{
}

/// What happens to the watch, and what is done about it, is what it says.
pub proof fn law_watch_content(event: WatchEvent, action: WatchAction)
    ensures
        match event {
            WatchEvent::Started => event@ == WatchEventView::Started,
            WatchEvent::Refused => event@ == WatchEventView::Refused,
            WatchEvent::Established => event@ == WatchEventView::Established,
            WatchEvent::Changed { key } => event@ == (WatchEventView::Changed { key: key@ }),
            WatchEvent::Lost => event@ == WatchEventView::Lost,
            WatchEvent::Tick => event@ == WatchEventView::Tick,
        },
        match action {
            WatchAction::EnqueueAll => action@ == WatchActionView::EnqueueAll,
            WatchAction::Sleep { seconds } => action@ == (WatchActionView::Sleep { seconds }),
            WatchAction::Connect => action@ == WatchActionView::Connect,
            WatchAction::Resync { seconds } => action@ == (WatchActionView::Resync { seconds }),
            WatchAction::Add { key } => action@ == (WatchActionView::Add { key: key@ }),
        },
{
}

} // verus!
