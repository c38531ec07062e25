//! Third-party developer tools a page exposes: the text listing of the tool
//! groups and the reports of a tool run.
use crate::commands::executor::{join_comma, push_joined_strs};
use crate::commands::input::{json_quote, json_string_literal};
use crate::text::{chars_of, concat2, owned, push_str, str_eq, string_from_chars};
use vstd::prelude::*;

verus! {

/// One tool as the page describes it; `annotations` holds its annotations
/// rendered as `key=value`.
pub struct ToolEntry {
    pub name: Option<String>,
    pub description: Option<String>,
    pub origin: Option<String>,
    pub annotations: Vec<String>,
}

/// A group of tools; `tools` is none where the page sent no tool list.
pub struct ToolGroup {
    pub name: Option<String>,
    pub description: Option<String>,
    pub tools: Option<Vec<ToolEntry>>,
}

/// The label of the API the tools came through.
pub open spec fn api_label_spec(api: Seq<char>) -> Seq<char> {
    if api == "modelContext"@ {
        "WebMCP"@
    } else if api == "dtmcp"@ {
        "DTMCP (legacy)"@
    } else {
        "unknown"@
    }
}

/// Names the API (see `api_label_spec`).
pub fn api_label(api: &str) -> (r: &'static str)
    ensures
        r@ == api_label_spec(api@),
{
    if str_eq(api, "modelContext") {
        "WebMCP"
    } else if str_eq(api, "dtmcp") {
        "DTMCP (legacy)"
    } else {
        "unknown"
    }
}

pub open spec fn or_default(o: Option<String>, d: Seq<char>) -> Seq<char> {
    match o {
        Some(s) => s@,
        None => d,
    }
}

/// The origin note of a tool, where it has one.
pub open spec fn origin_part(t: ToolEntry) -> Seq<char> {
    match t.origin {
        Some(o) => " [origin: "@ + o@ + "]"@,
        None => Seq::empty(),
    }
}

/// The annotation line of a tool, where it has annotations.
pub open spec fn annotation_part(t: ToolEntry) -> Seq<char> {
    if t.annotations@.len() > 0 {
        "    annotations: "@ + join_comma(t.annotations@.map_values(|s: String| s@)) + "\n"@
    } else {
        Seq::empty()
    }
}

/// The first part of a tool's lines: its name and description.
pub open spec fn tool_head(t: ToolEntry) -> Seq<char> {
    "  - "@ + or_default(t.name, "unknown"@) + ": "@ + or_default(t.description, Seq::empty())
}

/// The lines of one tool.
pub open spec fn tool_text(t: ToolEntry) -> Seq<char> {
    tool_head(t) + origin_part(t) + "\n"@ + annotation_part(t)
}

/// The lines of the first `k` tools.
pub open spec fn tools_text(tools: Seq<ToolEntry>, k: nat) -> Seq<char>
    decreases k,
{
    if k == 0 {
        Seq::empty()
    } else {
        tools_text(tools, (k - 1) as nat) + tool_text(tools[k - 1])
    }
}

/// The lines of one group: its name and description, then its tools.
pub open spec fn group_text(g: ToolGroup) -> Seq<char> {
    or_default(g.name, "unknown"@) + ": "@ + or_default(g.description, Seq::empty()) + "\n"@ + match g.tools {
        Some(ts) => if ts@.len() > 0 {
            "Available tools:\n"@ + tools_text(ts@, ts@.len())
        } else {
            Seq::empty()
        },
        None => Seq::empty(),
    }
}

/// The groups from the first `k`, separated by blank lines.
pub open spec fn groups_text(groups: Seq<ToolGroup>, k: nat) -> Seq<char>
    decreases k,
{
    if k == 0 {
        Seq::empty()
    } else {
        groups_text(groups, (k - 1) as nat) + (if k > 1 {
            "\n"@
        } else {
            Seq::empty()
        }) + group_text(groups[k - 1])
    }
}

/// The group lists at least one tool.
pub open spec fn group_has_tools(g: ToolGroup) -> bool {
    match g.tools {
        Some(ts) => ts@.len() > 0,
        None => false,
    }
}

/// Some group lists at least one tool.
pub open spec fn any_tools(groups: Seq<ToolGroup>) -> bool {
    exists|i: int| 0 <= i < groups.len() && group_has_tools(#[trigger] groups[i])
}

/// The text listing of the tools a page exposes through `api`.
pub open spec fn tool_list_spec(api: Seq<char>, groups: Seq<ToolGroup>) -> Seq<char> {
    if !any_tools(groups) {
        "No third-party developer tools found on this page."@
    } else {
        "API: "@ + api_label_spec(api) + "\n"@ + groups_text(groups, groups.len())
    }
}

fn push_or(m: &mut Vec<char>, o: &Option<String>, d: &str)
    ensures
        final(m)@ == old(m)@ + match *o {
            Some(s) => s@,
            None => d@,
        },
{
    match o {
        Some(s) => push_str(m, s.as_str()),
        None => push_str(m, d),
    }
}

fn push_tool(m: &mut Vec<char>, t: &ToolEntry)
    ensures
        final(m)@ == old(m)@ + tool_text(*t),
{
    let ghost start = m@;
    push_str(m, "  - ");
    push_or(m, &t.name, "unknown");
    push_str(m, ": ");
    push_or(m, &t.description, "");
    proof {
        reveal_strlit("");
        assert(m@ =~= start + tool_head(*t));
    }
    let ghost s1 = m@;
    match &t.origin {
        Some(o) => {
            push_str(m, " [origin: ");
            push_str(m, o.as_str());
            push_str(m, "]");
        },
        None => {},
    }
    proof {
        assert(m@ =~= s1 + origin_part(*t));
    }
    let ghost s2 = m@;
    push_str(m, "\n");
    let ghost s3 = m@;
    if t.annotations.len() > 0 {
        push_str(m, "    annotations: ");
        push_joined_strs(m, &t.annotations);
        push_str(m, "\n");
    }
    proof {
        assert(m@ =~= s3 + annotation_part(*t));
        assert(m@ =~= start + tool_text(*t));
    }
}

fn push_group(m: &mut Vec<char>, g: &ToolGroup)
    ensures
        final(m)@ == old(m)@ + group_text(*g),
{
    let ghost start = m@;
    push_or(m, &g.name, "unknown");
    push_str(m, ": ");
    push_or(m, &g.description, "");
    proof {
        reveal_strlit("");
    }
    push_str(m, "\n");
    let ghost head = m@;
    match &g.tools {
        Some(ts) => {
            if ts.len() > 0 {
                push_str(m, "Available tools:\n");
                let ghost h2 = m@;
                let mut i: usize = 0;
                while i < ts.len()
                    invariant
                        0 <= i <= ts@.len(),
                        m@ == h2 + tools_text(ts@, i as nat),
                    decreases ts@.len() - i,
                {
                    push_tool(m, &ts[i]);
                    i = i + 1;
                }
            }
        },
        None => {},
    }
    proof {
        assert(m@ =~= start + group_text(*g));
    }
}

/// Lists the tools (see `tool_list_spec`).
pub fn tool_list_text(api: &str, groups: &Vec<ToolGroup>) -> (r: String)
    ensures
        r@ == tool_list_spec(api@, groups@),
{
    let mut any = false;
    let mut i: usize = 0;
    while i < groups.len()
        invariant
            0 <= i <= groups@.len(),
            !any ==> forall|j: int| 0 <= j < i ==> !group_has_tools(#[trigger] groups@[j]),
            any ==> any_tools(groups@),
        decreases groups@.len() - i,
    {
        match &groups[i].tools {
            Some(ts) => {
                if ts.len() > 0 {
                    any = true;
                    proof {
                        assert(group_has_tools(groups@[i as int]));
                    }
                }
            },
            None => {},
        }
        i = i + 1;
    }
    if !any {
        return owned("No third-party developer tools found on this page.");
    }
    let mut m = chars_of("API: ");
    push_str(&mut m, api_label(api));
    push_str(&mut m, "\n");
    let ghost head = m@;
    let mut k: usize = 0;
    while k < groups.len()
        invariant
            0 <= k <= groups@.len(),
            m@ == head + groups_text(groups@, k as nat),
        decreases groups@.len() - k,
    {
        if k > 0 {
            push_str(&mut m, "\n");
        }
        push_group(&mut m, &groups[k]);
        proof {
            if k == 0 {
                assert(groups_text(groups@, 1) =~= group_text(groups@[0]));
            }
        }
        k = k + 1;
    }
    string_from_chars(m.as_slice())
}

/// The report of a tool run: the tool, the API it ran through, and its
/// result rendered as indented JSON.
pub fn executed_tool_message(name: &str, api: &str, result_json: &str) -> (r: String)
    ensures
        r@ == "Executed '"@ + name@ + "' via "@ + api_label_spec(api@) + ":\n"@ + result_json@,
{
    let mut m = chars_of("Executed '");
    push_str(&mut m, name);
    push_str(&mut m, "' via ");
    push_str(&mut m, api_label(api));
    push_str(&mut m, ":\n");
    push_str(&mut m, result_json);
    string_from_chars(m.as_slice())
}

/// `Failed to list tools: <error>`.
pub fn list_tools_error(error: &str) -> (r: String)
    ensures
        r@ == "Failed to list tools: "@ + error@,
{
    concat2("Failed to list tools: ", error)
}

/// `Tool execution error: <error>`.
pub fn tool_execution_error(error: &str) -> (r: String)
    ensures
        r@ == "Tool execution error: "@ + error@,
{
    concat2("Tool execution error: ", error)
}

/// What `serde_json` makes of a text parsed as a JSON value and written back
/// compactly; none where the text is no JSON.
pub uninterp spec fn json_reformat(text: Seq<char>) -> Option<Seq<char>>;

/// `serde_json::from_str::<Value>` followed by writing the value back
/// (`Value`'s `Display`, compact JSON). The parser's error message is
/// handed back as text; what it says is not stated.
#[verifier::external_body]
fn json_reformat_text(text: &str) -> (r: Result<String, String>)
    ensures
        match r {
            Ok(s) => json_reformat(text@) == Some(s@),
            Err(_) => json_reformat(text@) is None,
        },
{
    match serde_json::from_str::<serde_json::Value>(text) {
        Ok(v) => Ok(v.to_string()),
        Err(e) => Err(e.to_string()),
    }
}

/// The script that runs the tool named by the JSON string `name_lit` with
/// the JSON parameters `params_json`, through the page's WebMCP tools or
/// its legacy `__dtmcp` object.
pub open spec fn tool_script_spec(name_lit: Seq<char>, params_json: Seq<char>) -> Seq<char> {
    "(async () => {\n        const params = "@
        + params_json
        + ";\n        let hasModelContext = false;\n        if (document.modelContext && typeof document.modelContext.getTools === 'function') {\n            hasModelContext = true;\n            try {\n                const tools = await document.modelContext.getTools();\n                const tool = tools.find(t => t.name === "@
        + name_lit
        + ");\n                if (tool) {\n                    const result = await document.modelContext.executeTool(tool, "@
        + params_json
        + ");\n                    return JSON.stringify({ api: 'modelContext', result });\n                }\n            } catch (e) {\n                return JSON.stringify({ error: e.message || String(e) });\n            }\n        }\n        const dtmcp = window.__dtmcp;\n        if (!dtmcp) {\n            const msg = hasModelContext\n                ? 'Tool ' + "@
        + name_lit
        + " + ' not found via WebMCP'\n                : 'No third-party tools API available on this page';\n            return JSON.stringify({ error: msg });\n        }\n        try {\n            if (dtmcp.executeTool) {\n                const result = await dtmcp.executeTool("@
        + name_lit
        + ", params);\n                return JSON.stringify({ api: 'dtmcp', result });\n            }\n            const groups = dtmcp.toolGroups || (dtmcp.toolGroup ? [dtmcp.toolGroup] : []);\n            for (const group of groups) {\n                const tool = (group.tools || []).find(t => t.name === "@
        + name_lit
        + ");\n                if (tool && typeof tool.execute === 'function') {\n                    const result = await tool.execute(params);\n                    return JSON.stringify({ api: 'dtmcp', result });\n                }\n            }\n            return JSON.stringify({ error: 'Tool ' + "@
        + name_lit
        + " + ' not found' });\n        } catch (e) {\n            return JSON.stringify({ error: e.message || String(e) });\n        }\n    })()"@
}

fn push_tool_script(m: &mut Vec<char>, qn: &String, params_json: &str)
    ensures
        final(m)@ == old(m)@ + tool_script_spec(qn@, params_json@),
{
    let ghost start = m@;
    push_str(m, "(async () => {\n        const params = ");
    push_str(m, params_json);
    push_str(m, ";\n        let hasModelContext = false;\n        if (document.modelContext && typeof document.modelContext.getTools === 'function') {\n            hasModelContext = true;\n            try {\n                const tools = await document.modelContext.getTools();\n                const tool = tools.find(t => t.name === ");
    push_str(m, qn.as_str());
    push_str(m, ");\n                if (tool) {\n                    const result = await document.modelContext.executeTool(tool, ");
    push_str(m, params_json);
    push_str(m, ");\n                    return JSON.stringify({ api: 'modelContext', result });\n                }\n            } catch (e) {\n                return JSON.stringify({ error: e.message || String(e) });\n            }\n        }\n        const dtmcp = window.__dtmcp;\n        if (!dtmcp) {\n            const msg = hasModelContext\n                ? 'Tool ' + ");
    push_str(m, qn.as_str());
    push_str(m, " + ' not found via WebMCP'\n                : 'No third-party tools API available on this page';\n            return JSON.stringify({ error: msg });\n        }\n        try {\n            if (dtmcp.executeTool) {\n                const result = await dtmcp.executeTool(");
    push_str(m, qn.as_str());
    push_str(m, ", params);\n                return JSON.stringify({ api: 'dtmcp', result });\n            }\n            const groups = dtmcp.toolGroups || (dtmcp.toolGroup ? [dtmcp.toolGroup] : []);\n            for (const group of groups) {\n                const tool = (group.tools || []).find(t => t.name === ");
    push_str(m, qn.as_str());
    push_str(m, ");\n                if (tool && typeof tool.execute === 'function') {\n                    const result = await tool.execute(params);\n                    return JSON.stringify({ api: 'dtmcp', result });\n                }\n            }\n            return JSON.stringify({ error: 'Tool ' + ");
    push_str(m, qn.as_str());
    push_str(m, " + ' not found' });\n        } catch (e) {\n            return JSON.stringify({ error: e.message || String(e) });\n        }\n    })()");
    proof {
        assert(m@ =~= start + tool_script_spec(qn@, params_json@));
    }
}

/// The parameters text of a tool run: the one given, or `{}`.
pub open spec fn tool_params_text(params: Option<Seq<char>>) -> Seq<char> {
    match params {
        Some(p) => p,
        None => "{}"@,
    }
}

/// The script that runs tool `name` with the JSON parameters `params`
/// (`{}` when none are given). The parameters must be JSON; they are
/// written back compactly, and the name as a JSON string.
pub fn execute_tool_script(name: &str, params: Option<&str>) -> (r: Result<String, String>)
    ensures
        ({
            let t = tool_params_text(match params {
                Some(p) => Some(p@),
                None => None,
            });
            &&& (r is Ok <==> json_reformat(t) is Some)
            &&& (r matches Ok(s) ==> s@ == tool_script_spec(json_string_literal(name@), json_reformat(t)->0))
            &&& (r matches Err(m) ==> exists|e: Seq<char>| m@ == "Invalid JSON parameters: "@ + e)
        }),
{
    let text: &str = match params {
        Some(p) => p,
        None => "{}",
    };
    match json_reformat_text(text) {
        Err(e) => {
            let mut m = chars_of("Invalid JSON parameters: ");
            push_str(&mut m, e.as_str());
            Err(string_from_chars(m.as_slice()))
        },
        Ok(pj) => {
            let qn = json_quote(name);
            let mut m: Vec<char> = Vec::new();
            push_tool_script(&mut m, &qn, pj.as_str());
            proof {
                assert(m@ =~= tool_script_spec(json_string_literal(name@), pj@));
            }
            Ok(string_from_chars(m.as_slice()))
        },
    }
}

} // verus!
