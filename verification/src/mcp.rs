//! The settings of the tool server: which tools there are, which of them
//! may be enabled, and where the server listens.

use vstd::prelude::*;
use crate::json::{has_json_value, json_holds, member, member_pointer, read_text, text_at};
use crate::text::{decimal, decimal_text, str_eq, trimmed};
use crate::topology::names::{dedup, distinct, holds, lemma_distinct, no_repeats};
use crate::topology::settings::{or_text, trim_text};

verus! {

/// The host that the server listens on where none is named.
pub open spec fn default_host() -> Seq<char> {
    "127.0.0.1"@
}

/// The port that the server listens on where none is named.
pub const DEFAULT_MCP_PORT: u16 = 8787;

/// A tool of the server.
#[derive(Debug)]
pub struct McpToolDescriptor {
    pub name: String,
    pub title: String,
    pub description: String,
    pub enabled: bool,
}

/// Makes the descriptor of an enabled tool.
pub fn tool(name: &str, title: &str, description: &str) -> (r: McpToolDescriptor)
    ensures
        r.name@ == name@,
        r.title@ == title@,
        r.description@ == description@,
        r.enabled,
{
    McpToolDescriptor {
        name: String::from_str(name),
        title: String::from_str(title),
        description: String::from_str(description),
        enabled: true,
    }
}

/// The names of the tools, in the order in which they are listed.
pub open spec fn tool_names() -> Seq<Seq<char>> {
    seq![
        "cf_verify_token"@,
        "cf_list_zones"@,
        "cf_list_dns_records"@,
        "cf_create_dns_record"@,
        "cf_update_dns_record"@,
        "cf_delete_dns_record"@,
        "cf_bulk_create_dns_records"@,
        "cf_export_dns_records"@,
        "cf_purge_cache"@,
        "cf_get_zone_setting"@,
        "cf_update_zone_setting"@,
        "cf_get_dnssec"@,
        "cf_update_dnssec"@,
        "spf_simulate"@,
        "spf_graph"@,
    ]
}

/// Lists the tools of the server, all of them enabled.
pub fn available_tool_definitions() -> (r: Vec<McpToolDescriptor>)
    ensures
        r@.len() == tool_names().len(),
        forall|i: int| 0 <= i < r@.len() ==> (#[trigger] r@[i]).name@ == tool_names()[i] && r@[i].enabled,
{
    let mut tools: Vec<McpToolDescriptor> = Vec::new();
    tools.push(
        tool(
            "cf_verify_token",
            "Verify Cloudflare token",
            "Validate a Cloudflare API token or key/email pair.",
        ),
    );
    tools.push(tool("cf_list_zones", "List zones", "List Cloudflare zones for an account."));
    tools.push(
        tool("cf_list_dns_records", "List DNS records", "Fetch DNS records for a specific zone."),
    );
    tools.push(tool("cf_create_dns_record", "Create DNS record", "Create a DNS record in a zone."));
    tools.push(
        tool(
            "cf_update_dns_record",
            "Update DNS record",
            "Update an existing DNS record by record ID.",
        ),
    );
    tools.push(
        tool("cf_delete_dns_record", "Delete DNS record", "Delete a DNS record by record ID."),
    );
    tools.push(
        tool(
            "cf_bulk_create_dns_records",
            "Bulk create DNS records",
            "Create many DNS records in one operation.",
        ),
    );
    tools.push(
        tool(
            "cf_export_dns_records",
            "Export DNS records",
            "Export DNS records in JSON, CSV, or BIND format.",
        ),
    );
    tools.push(
        tool(
            "cf_purge_cache",
            "Purge cache",
            "Purge all or selected files from Cloudflare cache.",
        ),
    );
    tools.push(
        tool(
            "cf_get_zone_setting",
            "Get zone setting",
            "Read a single Cloudflare zone setting by ID.",
        ),
    );
    tools.push(
        tool(
            "cf_update_zone_setting",
            "Update zone setting",
            "Update a single Cloudflare zone setting by ID.",
        ),
    );
    tools.push(tool("cf_get_dnssec", "Get DNSSEC", "Fetch DNSSEC configuration for a zone."));
    tools.push(
        tool("cf_update_dnssec", "Update DNSSEC", "Update DNSSEC configuration for a zone."),
    );
    tools.push(
        tool("spf_simulate", "Simulate SPF", "Run SPF evaluation for a domain/IP combination."),
    );
    tools.push(
        tool("spf_graph", "Build SPF graph", "Build SPF include/redirect graph for a domain."),
    );
    tools
}

/// Lists the names of all tools: the set of tools that is enabled where
/// nothing else is asked for.
pub fn default_enabled_tool_set() -> (r: Vec<String>)
    ensures
        r.deep_view() == tool_names(),
{
    let tools = available_tool_definitions();
    let mut names: Vec<String> = Vec::new();
    let mut i: usize = 0;
    while i < tools.len()
        invariant
            i <= tools@.len(),
            tools@.len() == tool_names().len(),
            forall|k: int| 0 <= k < tools@.len() ==> (#[trigger] tools@[k]).name@ == tool_names()[k],
            names@.len() == i,
            forall|k: int| 0 <= k < i ==> (#[trigger] names@[k])@ == tool_names()[k],
        decreases tools@.len() - i,
    {
        names.push(tools[i].name.clone());
        i += 1;
    }
    names
}

/// Those of `list`, trimmed, that name a tool, in order.
pub open spec fn known_tools(list: Seq<Seq<char>>) -> Seq<Seq<char>>
    decreases list.len(),
{
    if list.len() == 0 {
        Seq::empty()
    } else {
        let before = known_tools(list.drop_last());
        let name = trimmed(list.last());
        if name.len() > 0 && tool_names().contains(name) {
            before.push(name)
        } else {
            before
        }
    }
}

/// What [`sanitize_enabled_tools`] returns: the names of `list`, trimmed,
/// that name a tool, each once.
pub open spec fn sanitized_tools(list: Seq<Seq<char>>) -> Seq<Seq<char>> {
    distinct(known_tools(list))
}

/// Brings a list of tool names into order: trims each name, drops the empty
/// ones and those that name no tool, and keeps each of the others once.
pub fn sanitize_enabled_tools(list: &Vec<String>) -> (r: Vec<String>)
    ensures
        r.deep_view() == sanitized_tools(list.deep_view()),
        no_repeats(r.deep_view()),
        forall|i: int| 0 <= i < r@.len() ==> tool_names().contains(#[trigger] r.deep_view()[i]),
{
    let allowed = default_enabled_tool_set();
    let ghost all = list.deep_view();
    let mut known: Vec<String> = Vec::new();
    let mut i: usize = 0;
    while i < list.len()
        invariant
            i <= list@.len(),
            all == list.deep_view(),
            allowed.deep_view() == tool_names(),
            known.deep_view() == known_tools(all.take(i as int)),
            forall|k: int| 0 <= k < known@.len() ==> tool_names().contains(#[trigger] known.deep_view()[k]),
        decreases list@.len() - i,
    {
        let ghost before = known.deep_view();
        proof {
            assert(all.take(i + 1).drop_last() =~= all.take(i as int));
        }
        let name = trim_text(list[i].as_str());
        if name.as_str().unicode_len() > 0 && holds(&allowed, name.as_str()) {
            let ghost added = name@;
            known.push(name);
            proof {
                assert(known.deep_view() =~= before.push(added));
            }
        }
        i += 1;
    }
    proof {
        assert(all.take(list@.len() as int) =~= all);
        lemma_distinct(known.deep_view());
    }
    let out = dedup(&known);
    proof {
        assert forall|k: int| 0 <= k < out@.len() implies tool_names().contains(
            #[trigger] out.deep_view()[k],
        ) by {
            assert(known.deep_view().contains(out.deep_view()[k]));
        }
    }
    out
}

/// The host to listen on: the named one, trimmed, or the default where none
/// is named or the name is empty.
pub open spec fn host_for(host: Option<Seq<char>>) -> Seq<char> {
    let name = trimmed(or_text(host, default_host()));
    if name.len() == 0 {
        default_host()
    } else {
        name
    }
}

/// Chooses the host to listen on.
pub fn normalize_host(host: Option<String>) -> (r: String)
    ensures
        r@ == host_for(host.deep_view()),
{
    let name = match &host {
        Some(h) => trim_text(h.as_str()),
        None => trim_text("127.0.0.1"),
    };
    if name.as_str().unicode_len() == 0 {
        String::from_str("127.0.0.1")
    } else {
        name
    }
}

/// Chooses the port to listen on: the named one, or the default where none
/// is named or the number is 0.
pub fn normalize_port(port: Option<u16>) -> (r: u16)
    ensures
        r == match port {
            Some(p) => if p == 0 {
                DEFAULT_MCP_PORT
            } else {
                p
            },
            None => DEFAULT_MCP_PORT,
        },
        r != 0,
{
    match port {
        Some(p) => if p == 0 {
            DEFAULT_MCP_PORT
        } else {
            p
        },
        None => DEFAULT_MCP_PORT,
    }
}

/// The address of the server.
pub fn server_url(host: &str, port: u16) -> (r: String)
    ensures
        r@ == "http://"@ + host@ + ":"@ + decimal(port as nat) + "/mcp"@,
{
    String::from_str("http://").concat(host).concat(":").concat(
        decimal_text(port as u64).as_str(),
    ).concat("/mcp")
}

/// Marks the tools that are enabled: a tool is exactly if `enabled` holds
/// its name.
pub fn mark_enabled(enabled: &Vec<String>) -> (r: Vec<McpToolDescriptor>)
    ensures
        r@.len() == tool_names().len(),
        forall|i: int|
            0 <= i < r@.len() ==> (#[trigger] r@[i]).name@ == tool_names()[i] && r@[i].enabled
                == enabled.deep_view().contains(tool_names()[i]),
{
    let tools = available_tool_definitions();
    let mut out: Vec<McpToolDescriptor> = Vec::new();
    let mut i: usize = 0;
    while i < tools.len()
        invariant
            i <= tools@.len(),
            tools@.len() == tool_names().len(),
            forall|k: int| 0 <= k < tools@.len() ==> (#[trigger] tools@[k]).name@ == tool_names()[k],
            out@.len() == i,
            forall|k: int|
                0 <= k < i ==> (#[trigger] out@[k]).name@ == tool_names()[k] && out@[k].enabled
                    == enabled.deep_view().contains(tool_names()[k]),
        decreases tools@.len() - i,
    {
        let on = holds(enabled, tools[i].name.as_str());
        out.push(
            McpToolDescriptor {
                name: tools[i].name.clone(),
                title: tools[i].title.clone(),
                description: tools[i].description.clone(),
                enabled: on,
            },
        );
        i += 1;
    }
    out
}

/// The text that `args` give under `key`, trimmed: nothing where they give
/// none, or one that is empty.
pub open spec fn argument(args: Seq<u8>, key: Seq<char>) -> Option<Seq<char>> {
    match text_at(args, Seq::empty(), key) {
        Some(text) => if trimmed(text).len() > 0 {
            Some(trimmed(text))
        } else {
            None
        },
        None => None,
    }
}

/// The complaint about an argument that is not there.
pub open spec fn missing_argument(key: Seq<char>) -> Seq<char> {
    "Missing required argument '"@ + key + "'"@
}

/// Reads a text that the arguments of a call may give.
pub fn get_optional_string(args: &[u8], key: &str) -> (r: Option<String>)
    ensures
        r.deep_view() == argument(args@, key@),
{
    proof {
        reveal_strlit("");
        assert(""@ =~= Seq::<char>::empty());
    }
    match read_text(args, "", key) {
        Some(text) => {
            let inner = trim_text(text.as_str());
            if inner.as_str().unicode_len() > 0 {
                Some(inner)
            } else {
                None
            }
        },
        None => None,
    }
}

/// Reads a text that the arguments of a call must give.
pub fn get_required_string(args: &[u8], key: &str) -> (r: Result<String, String>)
    ensures
        match r {
            Ok(text) => argument(args@, key@) == Some(text@),
            Err(message) => argument(args@, key@) is None && message@ == missing_argument(key@),
        },
{
    match get_optional_string(args, key) {
        Some(text) => Ok(text),
        None => {
            let mut message = String::from_str("Missing required argument '");
            message.append(key);
            message.append("'");
            Err(message)
        },
    }
}

/// The texts that a call of `tool` must give, in the order in which they
/// are asked for; nothing for a name that is no tool's.
pub open spec fn required_texts(tool: Seq<char>) -> Option<Seq<Seq<char>>> {
    if tool == "cf_verify_token"@ || tool == "cf_list_zones"@ {
        Some(seq!["api_key"@])
    } else if tool == "cf_list_dns_records"@ || tool == "cf_create_dns_record"@ || tool
        == "cf_bulk_create_dns_records"@ || tool == "cf_export_dns_records"@ || tool
        == "cf_purge_cache"@ || tool == "cf_get_dnssec"@ || tool == "cf_update_dnssec"@ {
        Some(seq!["api_key"@, "zone_id"@])
    } else if tool == "cf_update_dns_record"@ || tool == "cf_delete_dns_record"@ {
        Some(seq!["api_key"@, "zone_id"@, "record_id"@])
    } else if tool == "cf_get_zone_setting"@ || tool == "cf_update_zone_setting"@ {
        Some(seq!["api_key"@, "zone_id"@, "setting_id"@])
    } else if tool == "spf_simulate"@ {
        Some(seq!["domain"@, "ip"@])
    } else if tool == "spf_graph"@ {
        Some(seq!["domain"@])
    } else {
        None
    }
}

/// The value, of any kind, that a call of `tool` must give besides its
/// texts, if it must give one.
pub open spec fn required_value(tool: Seq<char>) -> Option<Seq<char>> {
    if tool == "cf_create_dns_record"@ || tool == "cf_update_dns_record"@ {
        Some("record"@)
    } else if tool == "cf_bulk_create_dns_records"@ {
        Some("records"@)
    } else if tool == "cf_update_zone_setting"@ {
        Some("value"@)
    } else if tool == "cf_update_dnssec"@ {
        Some("payload"@)
    } else {
        None
    }
}

/// The first of `keys` under which `args` give no text.
pub open spec fn first_missing(args: Seq<u8>, keys: Seq<Seq<char>>) -> Option<Seq<char>>
    decreases keys.len(),
{
    if keys.len() == 0 {
        None
    } else if argument(args, keys[0]) is None {
        Some(keys[0])
    } else {
        first_missing(args, keys.drop_first())
    }
}

/// Why a call of `tool` with `args` is refused before anything is done, if
/// it is: the name is no tool's, or a text that the tool needs is not there,
/// or, with all texts there, the value that it needs is not.
pub open spec fn tool_refusal(tool: Seq<char>, args: Seq<u8>) -> Option<Seq<char>> {
    match required_texts(tool) {
        None => Some("Unknown tool '"@ + tool + "'"@),
        Some(keys) => match first_missing(args, keys) {
            Some(key) => Some(missing_argument(key)),
            None => match required_value(tool) {
                Some(key) => if json_holds(args, member(Seq::empty(), key)) {
                    None
                } else {
                    Some(missing_argument(key))
                },
                None => None,
            },
        },
    }
}

/// Every tool that is listed has its required texts, and no other name has.
pub proof fn lemma_listed_tools_are_known(tool: Seq<char>)
    ensures
        required_texts(tool) is Some <==> tool_names().contains(tool),
{
    let names = tool_names();
    if required_texts(tool) is Some {
        let i = choose|i: int| 0 <= i < names.len() && #[trigger] names[i] == tool;
        assert(names[i] == tool);
    } else {
        assert forall|i: int| 0 <= i < names.len() implies #[trigger] names[i] != tool by {}
    }
}

/// Lists the texts that a call of `tool` must give.
pub fn tool_required_texts(tool: &str) -> (r: Option<Vec<String>>)
    ensures
        r.deep_view() == required_texts(tool@),
{
    let mut keys: Vec<String> = Vec::new();
    if str_eq(tool, "cf_verify_token") || str_eq(tool, "cf_list_zones") {
        keys.push(String::from_str("api_key"));
    } else if str_eq(tool, "cf_list_dns_records") || str_eq(tool, "cf_create_dns_record")
        || str_eq(tool, "cf_bulk_create_dns_records") || str_eq(tool, "cf_export_dns_records")
        || str_eq(tool, "cf_purge_cache") || str_eq(tool, "cf_get_dnssec") || str_eq(
        tool,
        "cf_update_dnssec",
    ) {
        keys.push(String::from_str("api_key"));
        keys.push(String::from_str("zone_id"));
    } else if str_eq(tool, "cf_update_dns_record") || str_eq(tool, "cf_delete_dns_record") {
        keys.push(String::from_str("api_key"));
        keys.push(String::from_str("zone_id"));
        keys.push(String::from_str("record_id"));
    } else if str_eq(tool, "cf_get_zone_setting") || str_eq(tool, "cf_update_zone_setting") {
        keys.push(String::from_str("api_key"));
        keys.push(String::from_str("zone_id"));
        keys.push(String::from_str("setting_id"));
    } else if str_eq(tool, "spf_simulate") {
        keys.push(String::from_str("domain"));
        keys.push(String::from_str("ip"));
    } else if str_eq(tool, "spf_graph") {
        keys.push(String::from_str("domain"));
    } else {
        return None;
    }
    proof {
        assert(keys.deep_view() =~= required_texts(tool@)->0);
    }
    Some(keys)
}

/// Names the value that a call of `tool` must give besides its texts.
pub fn tool_required_value(tool: &str) -> (r: Option<String>)
    ensures
        r.deep_view() == required_value(tool@),
{
    if str_eq(tool, "cf_create_dns_record") || str_eq(tool, "cf_update_dns_record") {
        Some(String::from_str("record"))
    } else if str_eq(tool, "cf_bulk_create_dns_records") {
        Some(String::from_str("records"))
    } else if str_eq(tool, "cf_update_zone_setting") {
        Some(String::from_str("value"))
    } else if str_eq(tool, "cf_update_dnssec") {
        Some(String::from_str("payload"))
    } else {
        None
    }
}

/// Checks a call of a tool before anything is done: returns why it is
/// refused, or nothing where it may go ahead.
pub fn check_tool_call(tool: &str, args: &[u8]) -> (r: Option<String>)
    ensures
        r.deep_view() == tool_refusal(tool@, args@),
{
    let keys = match tool_required_texts(tool) {
        Some(keys) => keys,
        None => {
            let mut message = String::from_str("Unknown tool '");
            message.append(tool);
            message.append("'");
            return Some(message);
        },
    };
    let ghost all = keys.deep_view();
    let mut i: usize = 0;
    proof {
        assert(all.skip(0) =~= all);
    }
    while i < keys.len()
        invariant
            i <= keys@.len(),
            all == keys.deep_view(),
            required_texts(tool@) == Some(all),
            first_missing(args@, all) == first_missing(args@, all.skip(i as int)),
        decreases keys@.len() - i,
    {
        proof {
            assert(all.skip(i as int).drop_first() =~= all.skip(i + 1));
            assert(all.skip(i as int)[0] == keys@[i as int]@);
        }
        match get_required_string(args, keys[i].as_str()) {
            Ok(_) => {},
            Err(message) => {
                return Some(message);
            },
        }
        i += 1;
    }
    match tool_required_value(tool) {
        Some(key) => {
            proof {
                reveal_strlit("");
                assert(""@ =~= Seq::<char>::empty());
            }
            let pointer = member_pointer("", key.as_str());
            if has_json_value(args, pointer.as_str()) {
                None
            } else {
                Some(String::from_str("Missing required argument '").concat(key.as_str()).concat("'"))
            }
        },
        None => None,
    }
}

/// What the server does with a request.
#[derive(Debug)]
pub enum RpcStep {
    /// It describes itself.
    Initialize,
    /// It answers with an empty result.
    Acknowledge,
    /// It lists the tools of these names.
    ListTools(Vec<String>),
    /// It runs the tool of this name.
    CallTool(String),
    /// It reports, as the result of the call, that the tool is disabled.
    ToolDisabled(String),
    /// It refuses the request with this message.
    Refuse(String),
}

/// The mathematical content of an [`RpcStep`].
pub enum StepView {
    Initialize,
    Acknowledge,
    ListTools(Seq<Seq<char>>),
    CallTool(Seq<char>),
    ToolDisabled(Seq<char>),
    Refuse(Seq<char>),
}

impl DeepView for RpcStep {
    type V = StepView;

    open spec fn deep_view(&self) -> StepView {
        match self {
            RpcStep::Initialize => StepView::Initialize,
            RpcStep::Acknowledge => StepView::Acknowledge,
            RpcStep::ListTools(names) => StepView::ListTools(names.deep_view()),
            RpcStep::CallTool(name) => StepView::CallTool(name@),
            RpcStep::ToolDisabled(message) => StepView::ToolDisabled(message@),
            RpcStep::Refuse(message) => StepView::Refuse(message@),
        }
    }
}

impl View for RpcStep {
    type V = StepView;

    open spec fn view(&self) -> StepView {
        self.deep_view()
    }
}

/// Those of `names` that are among `enabled`, in order.
pub open spec fn enabled_among(names: Seq<Seq<char>>, enabled: Seq<Seq<char>>) -> Seq<Seq<char>>
    decreases names.len(),
{
    if names.len() == 0 {
        Seq::empty()
    } else {
        let before = enabled_among(names.drop_last(), enabled);
        if enabled.contains(names.last()) {
            before.push(names.last())
        } else {
            before
        }
    }
}

/// What the server does with a request of the given method and parameters
/// while the tools `enabled` are enabled. A call names its tool under
/// `name`; a tool that is not enabled is not run.
pub open spec fn rpc_step_for(method: Seq<char>, params: Seq<u8>, enabled: Seq<Seq<char>>) -> StepView {
    if method == "initialize"@ {
        StepView::Initialize
    } else if method == "notifications/initialized"@ || method == "ping"@ {
        StepView::Acknowledge
    } else if method == "tools/list"@ {
        StepView::ListTools(enabled_among(tool_names(), enabled))
    } else if method == "tools/call"@ {
        match argument(params, "name"@) {
            None => StepView::Refuse("Missing tools/call param 'name'"@),
            Some(name) => if enabled.contains(name) {
                StepView::CallTool(name)
            } else {
                StepView::ToolDisabled("Tool '"@ + name + "' is disabled."@)
            },
        }
    } else {
        StepView::Refuse("Method '"@ + method + "' not found"@)
    }
}

/// Lists the tools that are enabled, in the order in which the tools are
/// listed.
pub fn enabled_tool_names(enabled: &Vec<String>) -> (r: Vec<String>)
    ensures
        r.deep_view() == enabled_among(tool_names(), enabled.deep_view()),
{
    let all = default_enabled_tool_set();
    let ghost names = all.deep_view();
    let mut listed: Vec<String> = Vec::new();
    let mut i: usize = 0;
    proof {
        assert(names.take(0) =~= Seq::<Seq<char>>::empty());
        assert(listed.deep_view() =~= Seq::<Seq<char>>::empty());
    }
    while i < all.len()
        invariant
            i <= all@.len(),
            names == all.deep_view(),
            listed.deep_view() == enabled_among(names.take(i as int), enabled.deep_view()),
        decreases all@.len() - i,
    {
        let ghost before = listed.deep_view();
        proof {
            assert(names.take(i + 1).drop_last() =~= names.take(i as int));
            assert(names.take(i + 1).last() == all@[i as int]@);
        }
        if holds(enabled, all[i].as_str()) {
            listed.push(all[i].clone());
            proof {
                assert(listed.deep_view() =~= before.push(all@[i as int]@));
            }
        }
        i += 1;
    }
    proof {
        assert(names.take(all@.len() as int) =~= names);
    }
    listed
}

/// Decides what the server does with a request.
pub fn rpc_step(method: &str, params: &[u8], enabled: &Vec<String>) -> (r: RpcStep)
    ensures
        r@ == rpc_step_for(method@, params@, enabled.deep_view()),
{
    if str_eq(method, "initialize") {
        RpcStep::Initialize
    } else if str_eq(method, "notifications/initialized") || str_eq(method, "ping") {
        RpcStep::Acknowledge
    } else if str_eq(method, "tools/list") {
        RpcStep::ListTools(enabled_tool_names(enabled))
    } else if str_eq(method, "tools/call") {
        match get_optional_string(params, "name") {
            None => RpcStep::Refuse(String::from_str("Missing tools/call param 'name'")),
            Some(name) => {
                if holds(enabled, name.as_str()) {
                    RpcStep::CallTool(name)
                } else {
                    let mut message = String::from_str("Tool '");
                    message.append(name.as_str());
                    message.append("' is disabled.");
                    RpcStep::ToolDisabled(message)
                }
            },
        }
    } else {
        let mut message = String::from_str("Method '");
        message.append(method);
        message.append("' not found");
        RpcStep::Refuse(message)
    }
}

} // verus!
