//! The relay: the downstream server surface.
//!
//! A relay is bound to one session's identity and to the policy in force.
//! Listings fan out to every target and are merged in snapshot order, each
//! tool or prompt name rewritten to `target:item`; guarded operations are
//! authorised **before** any dispatch is planned, and their namespaced
//! identifier is split to find the upstream and the upstream-local name.
//! The upstream calls themselves are I/O and happen outside, on the plans
//! and merges decided here.

use vstd::prelude::*;
use crate::naming::namespaced;
use crate::naming::split_spec;
use crate::naming::split_name;
use crate::naming::join_name;
use crate::naming::valid_target_name;
use crate::rbac::eval_rules;
use crate::rbac::Identity;
use crate::rbac::ResourceKind;
use crate::rbac::ResourceRef;
use crate::rbac::RuleSet;
use crate::registry::TargetRegistry;

verus! {

/// A listed tool or prompt, as the gateway shows it: a name and an optional
/// description.  Anything else an upstream attaches travels beside the
/// listing, outside the core.
#[derive(Debug)]
pub struct NamedItem {
    pub name: String,
    pub description: Option<String>,
}

/// The mathematical view of a listed item.
pub struct ItemView {
    pub name: Seq<char>,
    pub description: Option<Seq<char>>,
}

impl View for NamedItem {
    type V = ItemView;

    open spec fn view(&self) -> ItemView {
        ItemView {
            name: self.name@,
            description: match self.description {
                Some(d) => Some(d@),
                None => None,
            },
        }
    }
}

/// The views of a list of items.
pub open spec fn item_views(s: Seq<NamedItem>) -> Seq<ItemView> {
    s.map_values(|e: NamedItem| e@)
}

/// An item view renamed into the namespace of `target`.
pub open spec fn namespaced_view(target: Seq<char>, v: ItemView) -> ItemView {
    ItemView { name: namespaced(target, v.name), description: v.description }
}

/// One upstream's items, each renamed into the namespace of `target`, order
/// kept.
pub open spec fn namespaced_views(target: Seq<char>, items: Seq<NamedItem>) -> Seq<ItemView> {
    items.map_values(|e: NamedItem| namespaced_view(target, e@))
}

/// The merged listing: per-target blocks in snapshot order, each block's
/// items renamed and in upstream order.
pub open spec fn merged_items(replies: Seq<(String, Vec<NamedItem>)>) -> Seq<ItemView>
    decreases replies.len(),
{
    if replies.len() == 0 {
        Seq::empty()
    } else {
        namespaced_views(replies[0].0@, replies[0].1@) + merged_items(
            replies.subrange(1, replies.len() as int),
        )
    }
}

/// What a failed relay operation reports downstream.
#[derive(Clone, Copy, Debug, PartialEq, Eq, Structural)]
pub enum RelayError {
    /// The policy denied the resource: an authorisation error.
    NotAllowed,
    /// The identifier carries no `:` separator: a protocol error.
    InvalidName,
    /// The named target is not registered: a dispatch error.
    UnknownTarget,
}

impl RelayError {
    /// The JSON-RPC error code: authorisation and protocol errors surface as
    /// invalid-request, dispatch errors as internal errors.
    pub open spec fn code_spec(self) -> int {
        match self {
            RelayError::NotAllowed => -32600,
            RelayError::InvalidName => -32600,
            RelayError::UnknownTarget => -32603,
        }
    }

    /// The error message shown downstream.
    pub open spec fn message_spec(self) -> Seq<char> {
        match self {
            RelayError::NotAllowed => "not allowed"@,
            RelayError::InvalidName => "invalid name"@,
            RelayError::UnknownTarget => "unknown target"@,
        }
    }

    /// The JSON-RPC error code, computed.
    pub fn code(&self) -> (r: i32)
        ensures
            r as int == self.code_spec(),
    {
        match self {
            RelayError::NotAllowed => -32600,
            RelayError::InvalidName => -32600,
            RelayError::UnknownTarget => -32603,
        }
    }

    /// The error message, computed.
    pub fn message(&self) -> (r: String)
        ensures
            r@ == self.message_spec(),
    {
        match self {
            RelayError::NotAllowed => "not allowed".to_owned(),
            RelayError::InvalidName => "invalid name".to_owned(),
            RelayError::UnknownTarget => "unknown target".to_owned(),
        }
    }
}

/// A routed guarded call: the target to dispatch to, the upstream-local item
/// name to call it with, and the caller's arguments, passed through
/// untouched.
pub struct Dispatch<A> {
    pub target: String,
    pub item: String,
    pub args: A,
}

/// A relay, bound to the policy in force and to one session's identity.
#[derive(Debug)]
pub struct Relay {
    pub policies: RuleSet,
    pub who: Identity,
}

/// The merged listing a relay answers with.  It is a function of the
/// upstream replies alone: the bound identity plays no part.
pub open spec fn relay_listing(r: Relay, replies: Seq<(String, Vec<NamedItem>)>) -> Seq<ItemView> {
    merged_items(replies)
}

impl Relay {
    /// Bind a relay to a policy and an identity.
    pub fn new(policies: RuleSet, who: Identity) -> (r: Relay)
        ensures
            r.policies == policies,
            r.who == who,
    {
        Relay { policies, who }
    }

    /// Does the policy allow this identity a resource of kind `kind` with
    /// identifier `id`?
    pub open spec fn allows(self, kind: ResourceKind, id: Seq<char>) -> bool {
        eval_rules(self.policies.rules@, kind, id, self.who)
    }

    /// Evaluate the policy for one resource.
    pub fn authorize(&self, res: &ResourceRef) -> (r: bool)
        ensures
            r == self.allows(res.kind(), res.id_chars()),
    {
        self.policies.validate(res, &self.who)
    }

    /// How a guarded namespaced operation is routed: authorisation first —
    /// before any dispatch is planned — then the namespace split, then the
    /// registry check.
    pub open spec fn route_spec(self, reg: TargetRegistry, kind: ResourceKind, name: Seq<char>) -> Result<
        (Seq<char>, Seq<char>),
        RelayError,
    > {
        if !self.allows(kind, name) {
            Err(RelayError::NotAllowed)
        } else {
            match split_spec(name) {
                None => Err(RelayError::InvalidName),
                Some(p) => if reg.contains_name(p.0) {
                    Ok(p)
                } else {
                    Err(RelayError::UnknownTarget)
                },
            }
        }
    }

    /// Route `call_tool(name, args)`: the namespaced name is authorised as a
    /// tool, split into target and upstream tool name, and resolved against
    /// the registry; the arguments pass through untouched.
    pub fn route_call_tool<A>(&self, reg: &TargetRegistry, name: &str, args: A) -> (r: Result<
        Dispatch<A>,
        RelayError,
    >)
        requires
            reg.wf(),
        ensures
            match r {
                Ok(d) => self.route_spec(*reg, ResourceKind::Tool, name@) == Ok::<(Seq<char>, Seq<char>), RelayError>((d.target@, d.item@))
                    && d.args == args,
                Err(e) => self.route_spec(*reg, ResourceKind::Tool, name@) == Err::<(Seq<char>, Seq<char>), RelayError>(e),
            },
    {
        self.route_namespaced(reg, ResourceKind::Tool, name, args)
    }

    /// Route `get_prompt(name, args)`, exactly as `route_call_tool` but
    /// guarded as a prompt.
    pub fn route_get_prompt<A>(&self, reg: &TargetRegistry, name: &str, args: A) -> (r: Result<
        Dispatch<A>,
        RelayError,
    >)
        requires
            reg.wf(),
        ensures
            match r {
                Ok(d) => self.route_spec(*reg, ResourceKind::Prompt, name@) == Ok::<(Seq<char>, Seq<char>), RelayError>(
                    (d.target@, d.item@),
                ) && d.args == args,
                Err(e) => self.route_spec(*reg, ResourceKind::Prompt, name@) == Err::<(Seq<char>, Seq<char>), RelayError>(e),
            },
    {
        self.route_namespaced(reg, ResourceKind::Prompt, name, args)
    }

    fn route_namespaced<A>(&self, reg: &TargetRegistry, kind: ResourceKind, name: &str, args: A) -> (r:
        Result<Dispatch<A>, RelayError>)
        requires
            reg.wf(),
            kind != ResourceKind::Resource,
        ensures
            match r {
                Ok(d) => self.route_spec(*reg, kind, name@) == Ok::<(Seq<char>, Seq<char>), RelayError>((d.target@, d.item@)) && d.args
                    == args,
                Err(e) => self.route_spec(*reg, kind, name@) == Err::<(Seq<char>, Seq<char>), RelayError>(e),
            },
    {
        let rref = match kind {
            ResourceKind::Tool => ResourceRef::Tool { id: name.to_owned() },
            ResourceKind::Prompt => ResourceRef::Prompt { id: name.to_owned() },
            ResourceKind::Resource => ResourceRef::Resource { uri: name.to_owned() },
        };
        if !self.authorize(&rref) {
            return Err(RelayError::NotAllowed);
        }
        match split_name(name) {
            None => Err(RelayError::InvalidName),
            Some(pair) => {
                let (target, item) = pair;
                match reg.get(target.as_str()) {
                    Some(_) => Ok(Dispatch { target, item, args }),
                    None => Err(RelayError::UnknownTarget),
                }
            },
        }
    }

    /// Route `read_resource(uri)`: the raw URI is authorised as a resource;
    /// on success it is the dispatch key for the pool lookup.
    pub fn route_read_resource(&self, uri: &str) -> (r: Result<String, RelayError>)
        ensures
            match r {
                Ok(key) => self.allows(ResourceKind::Resource, uri@) && key@ == uri@,
                Err(e) => e == RelayError::NotAllowed && !self.allows(
                    ResourceKind::Resource,
                    uri@,
                ),
            },
    {
        let rref = ResourceRef::Resource { uri: uri.to_owned() };
        if !self.authorize(&rref) {
            return Err(RelayError::NotAllowed);
        }
        Ok(uri.to_owned())
    }

    /// Merge upstream `list_tools` replies, given in snapshot order: every
    /// name is rewritten to `target:name`; blocks and items keep their
    /// order.  Listing is public: the identity is not consulted.
    pub fn list_tools_merge(&self, replies: Vec<(String, Vec<NamedItem>)>) -> (r: Vec<NamedItem>)
        ensures
            item_views(r@) == relay_listing(*self, replies@),
    {
        merge_namespaced_listing(replies)
    }

    /// Merge upstream `list_prompts` replies; listings of prompts are
    /// namespaced exactly as listings of tools are.
    pub fn list_prompts_merge(&self, replies: Vec<(String, Vec<NamedItem>)>) -> (r: Vec<NamedItem>)
        ensures
            item_views(r@) == relay_listing(*self, replies@),
    {
        merge_namespaced_listing(replies)
    }
}

/// Merge per-target reply blocks, renaming each item into its target's
/// namespace, keeping block order and in-block order.
pub fn merge_namespaced_listing(replies: Vec<(String, Vec<NamedItem>)>) -> (r: Vec<NamedItem>)
    ensures
        item_views(r@) == merged_items(replies@),
{
    let ghost orig = replies@;
    let mut rest = replies;
    let mut out: Vec<NamedItem> = Vec::new();
    proof {
        assert(item_views(out@) + merged_items(rest@) =~= merged_items(orig));
    }
    while rest.len() != 0
        invariant
            item_views(out@) + merged_items(rest@) == merged_items(orig),
        decreases rest@.len(),
    {
        let ghost prev = rest@;
        let block = rest.remove(0);
        let (tname, items) = block;
        proof {
            assert(rest@ =~= prev.subrange(1, prev.len() as int));
            assert(merged_items(prev) == namespaced_views(prev[0].0@, prev[0].1@) + merged_items(
                rest@,
            ));
            assert(namespaced_views(prev[0].0@, prev[0].1@) == namespaced_views(tname@, items@));
        }
        let mut pending = items;
        while pending.len() != 0
            invariant
                item_views(out@) + (namespaced_views(tname@, pending@) + merged_items(rest@))
                    == merged_items(orig),
            decreases pending@.len(),
        {
            let ghost pprev = pending@;
            let ghost pout = out@;
            let e = pending.remove(0);
            let nm = join_name(tname.as_str(), e.name.as_str());
            out.push(NamedItem { name: nm, description: e.description });
            proof {
                assert(pending@ =~= pprev.subrange(1, pprev.len() as int));
                assert(out@.last()@ == namespaced_view(tname@, pprev[0]@));
                assert(item_views(out@) =~= item_views(pout).push(
                    namespaced_view(tname@, pprev[0]@),
                ));
                assert(item_views(out@) + (namespaced_views(tname@, pending@) + merged_items(rest@))
                    =~= item_views(pout) + (namespaced_views(tname@, pprev) + merged_items(rest@)));
            }
        }
        proof {
            assert(namespaced_views(tname@, pending@) =~= Seq::<ItemView>::empty());
            assert(item_views(out@) + merged_items(rest@) =~= item_views(out@) + (namespaced_views(
                tname@,
                pending@,
            ) + merged_items(rest@)));
        }
    }
    proof {
        assert(merged_items(rest@) =~= Seq::<ItemView>::empty());
        assert(item_views(out@) =~= item_views(out@) + merged_items(rest@));
    }
    out
}

/// A listed resource, as the gateway shows it: resources are not renamed —
/// their URIs are presumed globally unique — so the merge keeps them as the
/// upstreams listed them.
#[derive(Debug)]
pub struct ResourceEntry {
    pub uri: String,
    pub name: String,
}

/// The merged form of per-target reply blocks that are not renamed: the
/// blocks in snapshot order, each block's items in upstream order.
pub open spec fn merged_blocks<T>(replies: Seq<(String, Vec<T>)>) -> Seq<T>
    decreases replies.len(),
{
    if replies.len() == 0 {
        Seq::empty()
    } else {
        replies[0].1@ + merged_blocks(replies.subrange(1, replies.len() as int))
    }
}

/// Merge per-target reply blocks without renaming, keeping block order and
/// in-block order: the merge for `list_resources` and
/// `list_resource_templates`.
pub fn merge_block_listing<T>(replies: Vec<(String, Vec<T>)>) -> (r: Vec<T>)
    ensures
        r@ == merged_blocks(replies@),
{
    let ghost orig = replies@;
    let mut rest = replies;
    let mut out: Vec<T> = Vec::new();
    proof {
        assert(out@ + merged_blocks(rest@) =~= merged_blocks(orig));
    }
    while rest.len() != 0
        invariant
            out@ + merged_blocks(rest@) == merged_blocks(orig),
        decreases rest@.len(),
    {
        let ghost prev = rest@;
        let block = rest.remove(0);
        let (_tname, items) = block;
        proof {
            assert(rest@ =~= prev.subrange(1, prev.len() as int));
            assert(merged_blocks(prev) == prev[0].1@ + merged_blocks(rest@));
        }
        let mut pending = items;
        while pending.len() != 0
            invariant
                out@ + (pending@ + merged_blocks(rest@)) == merged_blocks(orig),
            decreases pending@.len(),
        {
            let ghost pprev = pending@;
            let ghost pout = out@;
            let e = pending.remove(0);
            out.push(e);
            proof {
                assert(pending@ =~= pprev.subrange(1, pprev.len() as int));
                assert(out@ + (pending@ + merged_blocks(rest@)) =~= pout + (pprev + merged_blocks(
                    rest@,
                )));
            }
        }
        proof {
            assert(out@ + merged_blocks(rest@) =~= out@ + (pending@ + merged_blocks(rest@)));
        }
    }
    proof {
        assert(out@ =~= out@ + merged_blocks(rest@));
    }
    out
}

/// The protocol version the gateway advertises downstream.
pub open spec fn protocol_version_spec() -> Seq<char> {
    "2024-11-05"@
}

/// Which capability families the gateway advertises.
#[derive(Clone, Copy, Debug, PartialEq, Eq, Structural)]
pub struct ServerCapabilities {
    pub prompts: bool,
    pub resources: bool,
    pub tools: bool,
    pub tools_list_changed: bool,
}

/// What the downstream handshake advertises: protocol version and
/// capabilities.
#[derive(Debug)]
pub struct ServerMeta {
    pub protocol_version: String,
    pub capabilities: ServerCapabilities,
}

/// The gateway's advertisement: protocol version `2024-11-05`; prompts,
/// resources and tools offered; no list-changed notifications.
pub fn server_info() -> (r: ServerMeta)
    ensures
        r.protocol_version@ == protocol_version_spec(),
        r.capabilities.prompts,
        r.capabilities.resources,
        r.capabilities.tools,
        !r.capabilities.tools_list_changed,
{
    ServerMeta {
        protocol_version: "2024-11-05".to_owned(),
        capabilities: ServerCapabilities {
            prompts: true,
            resources: true,
            tools: true,
            tools_list_changed: false,
        },
    }
}

/// Namespacing round-trip, end to end: the merged listing shows tool `j` of
/// target block `i` under the name `target:item`, and routing a guarded call
/// for that name — once the policy allows it — recovers exactly that target
/// and that upstream-local item name.
pub proof fn lemma_listing_route_round_trip(
    r: Relay,
    reg: TargetRegistry,
    replies: Seq<(String, Vec<NamedItem>)>,
    i: int,
    j: int,
)
    requires
        0 <= i < replies.len(),
        0 <= j < replies[i].1@.len(),
        valid_target_name(replies[i].0@),
        reg.contains_name(replies[i].0@),
        r.allows(ResourceKind::Tool, namespaced(replies[i].0@, replies[i].1@[j].name@)),
    ensures
        exists|k: int|
            0 <= k < relay_listing(r, replies).len() && relay_listing(r, replies)[k].name
                == namespaced(replies[i].0@, replies[i].1@[j].name@),
        r.route_spec(reg, ResourceKind::Tool, namespaced(replies[i].0@, replies[i].1@[j].name@))
            == Ok::<(Seq<char>, Seq<char>), RelayError>((replies[i].0@, replies[i].1@[j].name@)),
    decreases i,
{
    let target = replies[i].0@;
    let item = replies[i].1@[j].name@;
    crate::naming::lemma_namespacing_round_trip(target, item);
    if i == 0 {
        assert(namespaced_views(target, replies[0].1@)[j] == namespaced_view(
            target,
            replies[0].1@[j]@,
        ));
        assert(relay_listing(r, replies)[j].name == namespaced(target, item));
        assert(0 <= j < relay_listing(r, replies).len());
    } else {
        let tail = replies.subrange(1, replies.len() as int);
        lemma_listing_route_round_trip(r, reg, tail, i - 1, j);
        let k0 = choose|k: int|
            0 <= k < relay_listing(r, tail).len() && relay_listing(r, tail)[k].name == namespaced(
                tail[i - 1].0@,
                tail[i - 1].1@[j].name@,
            );
        assert(tail[i - 1] == replies[i]);
        let head_len = namespaced_views(replies[0].0@, replies[0].1@).len() as int;
        assert(relay_listing(r, replies)[head_len + k0] == relay_listing(r, tail)[k0]);
        assert(0 <= head_len + k0 < relay_listing(r, replies).len());
        assert(relay_listing(r, replies)[head_len + k0].name == namespaced(target, item));
    }
}

/// Namespace purity: when every reply block is keyed by a valid target name
/// and every upstream item name could itself stand as a name, every
/// identifier the merged listing emits is a pure namespaced id — one
/// separator, nonempty prefix and suffix.
pub proof fn lemma_listing_purity(replies: Seq<(String, Vec<NamedItem>)>, k: int)
    requires
        forall|i: int| 0 <= i < replies.len() ==> valid_target_name(#[trigger] replies[i].0@),
        forall|i: int, j: int|
            0 <= i < replies.len() && 0 <= j < replies[i].1@.len() ==> valid_target_name(
                #[trigger] replies[i].1@[j].name@,
            ),
        0 <= k < merged_items(replies).len(),
    ensures
        crate::naming::pure_namespaced_id(merged_items(replies)[k].name),
    decreases replies.len(),
{
    let head = namespaced_views(replies[0].0@, replies[0].1@);
    if k < head.len() {
        assert(merged_items(replies)[k] == head[k]);
        assert(head[k] == namespaced_view(replies[0].0@, replies[0].1@[k]@));
        crate::naming::lemma_namespace_purity(replies[0].0@, replies[0].1@[k].name@);
    } else {
        let tail = replies.subrange(1, replies.len() as int);
        assert forall|i: int, j: int|
            0 <= i < tail.len() && 0 <= j < tail[i].1@.len() implies valid_target_name(
            #[trigger] tail[i].1@[j].name@,
        ) by {
            assert(tail[i] == replies[i + 1]);
            assert(valid_target_name(replies[i + 1].1@[j].name@));
        }
        lemma_listing_purity(tail, k - head.len());
        assert(merged_items(replies)[k] == merged_items(tail)[k - head.len()]);
    }
}

/// RBAC precedence: when the policy denies a tool, routing yields the
/// authorisation error and no dispatch — so no upstream I/O can follow.
pub proof fn lemma_rbac_precedence(r: Relay, reg: TargetRegistry, name: Seq<char>)
    requires
        !r.allows(ResourceKind::Tool, name),
    ensures
        r.route_spec(reg, ResourceKind::Tool, name) == Err::<(Seq<char>, Seq<char>), RelayError>(
            RelayError::NotAllowed,
        ),
{
}

/// Deny by default: under an empty policy every guarded operation is
/// answered `not allowed`, as an invalid-request error.
pub proof fn lemma_deny_by_default_routing(
    r: Relay,
    reg: TargetRegistry,
    kind: ResourceKind,
    name: Seq<char>,
)
    requires
        r.policies.rules@.len() == 0,
    ensures
        r.route_spec(reg, kind, name) == Err::<(Seq<char>, Seq<char>), RelayError>(
            RelayError::NotAllowed,
        ),
        RelayError::NotAllowed.message_spec() == "not allowed"@,
        RelayError::NotAllowed.code_spec() == -32600,
{
}

/// Session isolation: two relays differing only in identity answer listings
/// identically — listing is public — while each guarded route is decided by
/// its own identity's policy evaluation.
pub proof fn lemma_session_isolation(
    r1: Relay,
    r2: Relay,
    replies: Seq<(String, Vec<NamedItem>)>,
    reg: TargetRegistry,
    name: Seq<char>,
)
    requires
        r1.policies == r2.policies,
    ensures
        relay_listing(r1, replies) == relay_listing(r2, replies),
        r1.allows(ResourceKind::Tool, name) == eval_rules(
            r1.policies.rules@,
            ResourceKind::Tool,
            name,
            r1.who,
        ),
        r2.allows(ResourceKind::Tool, name) == eval_rules(
            r2.policies.rules@,
            ResourceKind::Tool,
            name,
            r2.who,
        ),
{
}

/// Idempotent listing: with the registry and the upstreams unchanged, the
/// relay's merged listing is the same, entry for entry.
pub proof fn lemma_idempotent_listing(
    r: Relay,
    replies_first: Seq<(String, Vec<NamedItem>)>,
    replies_second: Seq<(String, Vec<NamedItem>)>,
)
    requires
        replies_first == replies_second,
    ensures
        relay_listing(r, replies_first) == relay_listing(r, replies_second),
{
}

} // verus!
