//! What the pcs daemon answers, and the token that it asks for.

use crate::db::{DbNode, NodeModel, scanned_db_node, scanned_node_record};
use crate::json::{
    Json, JsonModel, array_of, as_text, at, entries_of, items_of, lookup, member, object_of,
    parsed_json, read_json, text_at, text_at_or, text_of,
};
use crate::lines::{add_line, flat, lemma_flat_take, lemma_views_push, lines_of};
use crate::res_file::or_text;
use crate::scan::{before_colon, node_of_line, parse_crm_mon_xml};
use crate::text::{
    find, opt_view, same, trim_end_char, trim_start_matches, views, without_prefixes,
    without_trailing,
};
use vstd::prelude::*;
use vstd::string::*;

verus! {

/// The node that an item of the status lists, where it has a name.
pub open spec fn status_node() -> spec_fn(JsonModel) -> Seq<NodeModel> {
    |n: JsonModel|
        match as_text(member(n, "name"@)) {
            Some(name) => seq![
                scanned_node_record(name, or_text(as_text(member(n, "addr"@)), ""@)),
            ],
            None => Seq::empty(),
        }
}

/// The nodes that the status of a cluster lists.
pub open spec fn status_nodes(data: JsonModel) -> Seq<NodeModel> {
    flat(items_of(member(member(data, "cluster_settings"@), "nodes"@)), status_node())
}

/// The nodes that the status of a cluster lists.
pub fn read_status_nodes(data: &Json) -> (r: Vec<DbNode>)
    ensures
        views(r@) == status_nodes(data@),
{
    let mut nodes: Vec<DbNode> = Vec::new();
    assert(views(nodes@) =~= Seq::<NodeModel>::empty());
    if let Some(list) = array_of(at(at(Some(data), "cluster_settings"), "nodes")) {
        let ghost all = views(list@);
        let mut i: usize = 0;
        while i < list.len()
            invariant
                all == views(list@),
                i <= list.len(),
                views(nodes@) == flat(all.take(i as int), status_node()),
            decreases list.len() - i,
        {
            let ghost seen = views(nodes@);
            proof {
                lemma_flat_take(all, status_node(), i as int);
                assert(all[i as int] == list@[i as int]@);
                assert(seen + Seq::<NodeModel>::empty() =~= seen);
            }
            let this = Some(&list[i]);
            if let Some(name) = text_at(this, "name") {
                let node = scanned_db_node(name, text_at_or(this, "addr", ""));
                proof {
                    lemma_views_push(nodes@, node);
                }
                nodes.push(node);
                assert(views(nodes@) =~= seen + seq![node@]);
            }
            i += 1;
        }
        assert(all.take(i as int) =~= all);
    }
    nodes
}

/// The token that a login answers with.
pub fn read_login_token(data: &Json) -> (r: Option<String>)
    ensures
        opt_view(r) == as_text(member(data@, "token"@)),
{
    match text_at(Some(data), "token") {
        Some(s) => Some(s.to_owned()),
        None => None,
    }
}

/// An address of the daemon without the slashes at its end.
pub fn base_url(url: &str) -> (r: String)
    ensures
        r@ == without_trailing(url@, '/'),
{
    trim_end_char(url, '/').to_owned()
}

/// The host of an address: what stands before the first colon once the scheme is gone.
pub open spec fn url_host(url: Seq<char>) -> Seq<char> {
    before_colon(without_prefixes(without_prefixes(url, "https://"@), "http://"@))
}

/// The host of an address.
pub fn host_of_url(url: &str) -> (r: String)
    ensures
        r@ == url_host(url@),
{
    proof {
        reveal_strlit("https://");
        reveal_strlit("http://");
    }
    let rest = trim_start_matches(trim_start_matches(url, "https://"), "http://");
    match find(rest, ":") {
        Some(i) => {
            assert(rest@.subrange(0, i as int) =~= rest@.take(i as int));
            rest.substring_char(0, i).to_owned()
        },
        None => rest.to_owned(),
    }
}

/// Why there is no token for a host.
#[derive(Debug)]
pub enum TokenError {
    /// The file is not JSON.
    Syntax(serde_json::Error),
    /// The file lists no hosts.
    NoKnownHosts,
    /// The file has no token for the host.
    NoToken,
}

/// The entry of a host, or else the first entry of all.
pub open spec fn host_entry(known: JsonModel, host: Seq<char>) -> Option<JsonModel> {
    match lookup(known, host) {
        Some(e) => Some(e),
        None => if entries_of(known).len() > 0 {
            Some(entries_of(known)[0].1)
        } else {
            None
        },
    }
}

/// The token of a host.
pub open spec fn host_token(known: JsonModel, host: Seq<char>) -> Option<Seq<char>> {
    match host_entry(known, host) {
        Some(e) => as_text(member(e, "token"@)),
        None => None,
    }
}

/// The token of a host, from the known hosts.
pub fn find_host_token(data: &Json, host: &str) -> (r: Result<String, TokenError>)
    ensures
        match lookup(data@, "known_hosts"@) {
            None => r matches Err(TokenError::NoKnownHosts),
            Some(known) => match host_token(known, host@) {
                Some(token) => r matches Ok(s) && s@ == token,
                None => r matches Err(TokenError::NoToken),
            },
        },
{
    let known = at(Some(data), "known_hosts");
    if known.is_none() {
        return Err(TokenError::NoKnownHosts);
    }
    let mut entry = at(known, host);
    if entry.is_none() {
        if let Some(list) = object_of(known) {
            if list.len() > 0 {
                assert(views(list@)[0] == list@[0]@);
                entry = Some(&list[0].1);
            }
        }
    }
    match text_at(entry, "token") {
        Some(s) => Ok(s.to_owned()),
        None => Err(TokenError::NoToken),
    }
}

/// The token of a host, from the text of the file of known hosts.
pub fn pcsd_read_node_token(content: &str, host: &str) -> (r: Result<String, TokenError>)
    ensures
        match parsed_json(content@) {
            None => r matches Err(TokenError::Syntax(_)),
            Some(data) => match lookup(data, "known_hosts"@) {
                None => r matches Err(TokenError::NoKnownHosts),
                Some(known) => match host_token(known, host@) {
                    Some(token) => r matches Ok(s) && s@ == token,
                    None => r matches Err(TokenError::NoToken),
                },
            },
        },
{
    match read_json(content) {
        Ok(data) => find_host_token(&data, host),
        Err(e) => Err(TokenError::Syntax(e)),
    }
}

/// Whether the daemon has refused the token.
pub fn is_unauthorized(status: &Json) -> (r: bool)
    ensures
        r == (as_text(member(status@, "notauthorized"@)) == Some("true"@)),
{
    match text_at(Some(status), "notauthorized") {
        Some(s) => same(s, "true"),
        None => false,
    }
}

/// The text that an item is, where it is one.
pub open spec fn text_item() -> spec_fn(JsonModel) -> Seq<Seq<char>> {
    |n: JsonModel|
        match as_text(n) {
            Some(s) => seq![s],
            None => Seq::empty(),
        }
}

/// The nodes that are online.
pub fn online_nodes(status: &Json) -> (r: Vec<String>)
    ensures
        views(r@) == flat(items_of(member(status@, "corosync_online"@)), text_item()),
{
    let mut out: Vec<String> = Vec::new();
    assert(views(out@) =~= Seq::<Seq<char>>::empty());
    if let Some(list) = array_of(at(Some(status), "corosync_online")) {
        let ghost all = views(list@);
        let mut i: usize = 0;
        while i < list.len()
            invariant
                all == views(list@),
                i <= list.len(),
                views(out@) == flat(all.take(i as int), text_item()),
            decreases list.len() - i,
        {
            let ghost seen = views(out@);
            proof {
                lemma_flat_take(all, text_item(), i as int);
                assert(all[i as int] == list@[i as int]@);
                assert(seen + Seq::<Seq<char>>::empty() =~= seen);
            }
            if let Some(s) = text_of(Some(&list[i])) {
                add_line(&mut out, s);
                assert(views(out@) =~= seen + seq![s@]);
            }
            i += 1;
        }
        assert(all.take(i as int) =~= all);
    }
    out
}

/// The name of the cluster, empty where the status has none.
pub fn cluster_name(status: &Json) -> (r: String)
    ensures
        r@ == or_text(as_text(member(status@, "cluster_name"@)), ""@),
{
    text_at_or(Some(status), "cluster_name", "").to_owned()
}

// ---------------------------------------------------------------------------
// Asking for the nodes of the cluster
// ---------------------------------------------------------------------------

/// What came of a request.
#[derive(Debug)]
pub enum Reply {
    /// An answer, and whether its status is one of success.
    Received { success: bool, body: String },
    /// No answer.
    Failed,
}

/// What is done next to learn the nodes of the cluster.
#[derive(Debug)]
pub enum NodeQuery {
    /// Log in at this address.
    Login { url: String },
    /// Ask this address for the status, with the token.
    Status { url: String, token: String },
    /// Ask `crm_mon`.
    CrmMon,
    /// The nodes are known.
    Done(Vec<DbNode>),
}

/// The address at which one logs in.
pub open spec fn login_url(url: Seq<char>) -> Seq<char> {
    without_trailing(url, '/') + "/api/v1/auth/login"@
}

/// The address that tells the status of the cluster.
pub open spec fn status_url(url: Seq<char>) -> Seq<char> {
    without_trailing(url, '/') + "/api/v1/cluster/status"@
}

/// The data of a successful answer.
pub open spec fn reply_data(reply: Reply) -> Option<JsonModel> {
    match reply {
        Reply::Received { success, body } => if success {
            parsed_json(body@)
        } else {
            None
        },
        Reply::Failed => None,
    }
}

/// The token of a successful login.
pub open spec fn reply_token(reply: Reply) -> Option<Seq<char>> {
    match reply_data(reply) {
        Some(data) => as_text(member(data, "token"@)),
        None => None,
    }
}

fn read_reply(reply: &Reply) -> (r: Option<Json>)
    ensures
        match r {
            Some(data) => reply_data(*reply) == Some(data@),
            None => reply_data(*reply) is None,
        },
{
    match reply {
        Reply::Received { success, body } => if *success {
            match read_json(body.as_str()) {
                Ok(data) => Some(data),
                Err(_) => None,
            }
        } else {
            None
        },
        Reply::Failed => None,
    }
}

/// The first step: without a password only `crm_mon` can be asked.
pub fn begin_node_query(pcsd_url: &str, pcsd_pass: &str) -> (r: NodeQuery)
    ensures
        pcsd_pass@.len() == 0 ==> r is CrmMon,
        pcsd_pass@.len() > 0 ==> (r matches NodeQuery::Login { url } && url@ == login_url(
            pcsd_url@,
        )),
{
    if pcsd_pass.unicode_len() == 0 {
        NodeQuery::CrmMon
    } else {
        let mut url = base_url(pcsd_url);
        url.push_str("/api/v1/auth/login");
        NodeQuery::Login { url }
    }
}

/// The step behind a login: the token of a successful one is used to ask for the status.
pub fn after_login(pcsd_url: &str, reply: &Reply) -> (r: NodeQuery)
    ensures
        match reply_token(*reply) {
            Some(t) => r matches NodeQuery::Status { url, token } && url@ == status_url(pcsd_url@)
                && token@ == t,
            None => r is CrmMon,
        },
{
    let token = match read_reply(reply) {
        Some(data) => read_login_token(&data),
        None => None,
    };
    match token {
        Some(token) => {
            let mut url = base_url(pcsd_url);
            url.push_str("/api/v1/cluster/status");
            NodeQuery::Status { url, token }
        },
        None => NodeQuery::CrmMon,
    }
}

/// The step behind the status: a successful answer lists the nodes.
pub fn after_status(reply: &Reply) -> (r: NodeQuery)
    ensures
        match reply_data(*reply) {
            Some(data) => r matches NodeQuery::Done(nodes) && views(nodes@) == status_nodes(data),
            None => r is CrmMon,
        },
{
    match read_reply(reply) {
        Some(data) => NodeQuery::Done(read_status_nodes(&data)),
        None => NodeQuery::CrmMon,
    }
}

/// The last step: the nodes that `crm_mon` lists; none where it could not be run.
pub fn after_crm_mon(output: &Option<String>) -> (r: NodeQuery)
    ensures
        r matches NodeQuery::Done(nodes) && views(nodes@) == (match output {
            Some(xml) => flat(lines_of(xml@), node_of_line()),
            None => Seq::empty(),
        }),
{
    match output {
        Some(xml) => NodeQuery::Done(parse_crm_mon_xml(xml.as_str())),
        None => {
            let none: Vec<DbNode> = Vec::new();
            assert(views(none@) =~= Seq::<NodeModel>::empty());
            NodeQuery::Done(none)
        },
    }
}

// ---------------------------------------------------------------------------
// Asking what the cluster runs
// ---------------------------------------------------------------------------

/// What the daemon says of the cluster.
#[derive(Debug)]
pub struct ClusterInfo {
    pub cluster_name: String,
    pub nodes: Vec<String>,
}

/// Why nothing is known of the cluster.
#[derive(Debug)]
pub enum InfoError {
    /// The answer tells of a failure.
    Status,
    /// The answer is not JSON.
    Syntax(serde_json::Error),
    /// The daemon has refused the token.
    Unauthorized,
}

/// The address that tells what the cluster runs.
pub fn info_url(url: &str) -> (r: String)
    ensures
        r@ == without_trailing(url@, '/') + "/remote/status?version=2&operations=1"@,
{
    let mut out = base_url(url);
    out.push_str("/remote/status?version=2&operations=1");
    out
}

/// The header that carries a token.
pub fn token_cookie(token: &str) -> (r: String)
    ensures
        r@ == "token="@ + token@,
{
    let mut out = "token=".to_owned();
    out.push_str(token);
    out
}

/// What an answer says of the cluster.
pub fn read_cluster_info(success: bool, body: &str) -> (r: Result<ClusterInfo, InfoError>)
    ensures
        if !success {
            r matches Err(InfoError::Status)
        } else {
            match parsed_json(body@) {
                None => r matches Err(InfoError::Syntax(_)),
                Some(status) => if as_text(member(status, "notauthorized"@)) == Some("true"@) {
                    r matches Err(InfoError::Unauthorized)
                } else {
                    r matches Ok(info) && info.cluster_name@ == or_text(
                        as_text(member(status, "cluster_name"@)),
                        ""@,
                    ) && views(info.nodes@) == flat(
                        items_of(member(status, "corosync_online"@)),
                        text_item(),
                    )
                },
            }
        },
{
    if !success {
        return Err(InfoError::Status);
    }
    match read_json(body) {
        Ok(status) => if is_unauthorized(&status) {
            Err(InfoError::Unauthorized)
        } else {
            Ok(ClusterInfo { cluster_name: cluster_name(&status), nodes: online_nodes(&status) })
        },
        Err(e) => Err(InfoError::Syntax(e)),
    }
}

} // verus!
