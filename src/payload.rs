//! The JSON arguments of the core events: `core:init`, `core:event`,
//! `core:endpoint` and `core:power`.
use vstd::prelude::*;
use crate::power::PowerCommand;
use crate::registry::{PluginView, Registry};

verus! {

/// The JSON string literal that serde_json writes for `s`.
pub uninterp spec fn json_quoted(s: Seq<char>) -> Seq<char>;

/// Relies on serde_json::to_string on a `str`: the text as a quoted,
/// escaped JSON string.
#[verifier::external_body]
pub(crate) fn quote(s: &str) -> (r: String)
    ensures
        r@ == json_quoted(s@),
{
    match serde_json::to_string(s) {
        Ok(t) => t,
        Err(_) => String::new(),
    }
}

/// The decimal digit `d`.
pub open spec fn digit_char(d: nat) -> char {
    "0123456789"@[d as int]
}

/// `n` written in decimal.
pub open spec fn decimal_text(n: nat) -> Seq<char>
    decreases n,
{
    if n < 10 {
        seq![digit_char(n)]
    } else {
        decimal_text(n / 10).push(digit_char(n % 10))
    }
}

/// Appends `n` in decimal.
pub fn append_decimal(out: &mut String, n: u32)
    ensures
        final(out)@ == old(out)@ + decimal_text(n as nat),
    decreases n,
{
    if n >= 10 {
        append_decimal(out, n / 10);
    }
    let d = (n % 10) as usize;
    proof {
        reveal_strlit("0123456789");
    }
    let digits = "0123456789";
    let one = digits.substring_char(d, d + 1);
    assert(one@ =~= seq![digit_char(d as nat)]);
    out.append(one);
    proof {
        if n >= 10 {
            assert(decimal_text(n as nat) == decimal_text((n / 10) as nat).push(digit_char((n % 10) as nat)));
        }
    }
    assert(out@ =~= old(out)@ + decimal_text(n as nat));
}

/// One entry of the plugin list of `core:init`.
pub open spec fn plugin_entry(p: PluginView) -> Seq<char> {
    "{\"name\":"@ + json_quoted(p.name) + ",\"version\":"@ + json_quoted(p.version) + "}"@
}

/// The entries of the plugin list, separated by commas.
pub open spec fn plugin_entries(ps: Seq<PluginView>) -> Seq<char>
    decreases ps.len(),
{
    if ps.len() == 0 {
        Seq::empty()
    } else if ps.len() == 1 {
        plugin_entry(ps[0])
    } else {
        plugin_entries(ps.drop_last()) + ","@ + plugin_entry(ps.last())
    }
}

/// The arguments of `core:init`: the core's version and every mounted
/// plugin's name and version, in mount order.
pub open spec fn init_payload(core_version: Seq<char>, ps: Seq<PluginView>) -> Seq<char> {
    "{\"core_version\":"@ + json_quoted(core_version) + ",\"plugins\":["@ + plugin_entries(ps) + "]}"@
}

/// The arguments of `core:event` for a new event.
pub open spec fn event_payload(name: Seq<char>, schema: Seq<char>) -> Seq<char> {
    "{\"event_name\":"@ + json_quoted(name) + ",\"argument_schema\":"@ + schema + "}"@
}

/// The arguments of `core:endpoint` for a new endpoint.
pub open spec fn endpoint_payload(name: Seq<char>, args: Seq<char>, response: Seq<char>) -> Seq<char> {
    "{\"endpoint_name\":"@ + json_quoted(name) + ",\"argument_schema\":"@ + args + ",\"response_schema\":"@ + response + "}"@
}

/// The command word of a power command.
pub open spec fn command_word(c: PowerCommand) -> Seq<char> {
    match c {
        PowerCommand::Shutdown => "\"shutdown\""@,
        PowerCommand::Restart => "\"restart\""@,
        PowerCommand::Cancel => "\"cancel\""@,
    }
}

/// The arguments of the `core:power` event.
pub open spec fn power_payload(c: PowerCommand, timestamp: Seq<char>, delay: Option<u32>) -> Seq<char> {
    "{\"command\":"@ + command_word(c) + ",\"timestamp\":"@ + json_quoted(timestamp) + match delay {
        Some(d) => ",\"delay\":"@ + decimal_text(d as nat),
        None => Seq::empty(),
    } + "}"@
}

/// Builds the arguments of `core:event`.
pub fn event_args(name: &str, schema: &str) -> (r: String)
    ensures
        r@ == event_payload(name@, schema@),
{
    let mut r = String::from_str("{\"event_name\":");
    let q = quote(name);
    r.append(q.as_str());
    r.append(",\"argument_schema\":");
    r.append(schema);
    r.append("}");
    assert(r@ =~= event_payload(name@, schema@));
    r
}

/// Builds the arguments of `core:endpoint`.
pub fn endpoint_args(name: &str, args: &str, response: &str) -> (r: String)
    ensures
        r@ == endpoint_payload(name@, args@, response@),
{
    let mut r = String::from_str("{\"endpoint_name\":");
    let q = quote(name);
    r.append(q.as_str());
    r.append(",\"argument_schema\":");
    r.append(args);
    r.append(",\"response_schema\":");
    r.append(response);
    r.append("}");
    assert(r@ =~= endpoint_payload(name@, args@, response@));
    r
}

/// Builds the arguments of the `core:power` event.
pub fn power_args(command: PowerCommand, timestamp: &str, delay: Option<u32>) -> (r: String)
    ensures
        r@ == power_payload(command, timestamp@, delay),
{
    let mut r = String::from_str("{\"command\":");
    match command {
        PowerCommand::Shutdown => r.append("\"shutdown\""),
        PowerCommand::Restart => r.append("\"restart\""),
        PowerCommand::Cancel => r.append("\"cancel\""),
    }
    r.append(",\"timestamp\":");
    let q = quote(timestamp);
    r.append(q.as_str());
    match delay {
        Some(d) => {
            r.append(",\"delay\":");
            append_decimal(&mut r, d);
        },
        None => {},
    }
    r.append("}");
    assert(r@ =~= power_payload(command, timestamp@, delay));
    r
}

impl<F: Copy, R: Copy> Registry<F, R> {
    /// Builds the arguments of `core:init` from the mounted plugins.
    pub fn init_args(&self, core_version: &str) -> (r: String)
        ensures
            r@ == init_payload(core_version@, self@.plugins),
    {
        let mut r = String::from_str("{\"core_version\":");
        let q = quote(core_version);
        r.append(q.as_str());
        r.append(",\"plugins\":[");
        let ghost head = r@;
        let n = self.plugin_count();
        let mut i: usize = 0;
        while i < n
            invariant
                n == self@.plugins.len(),
                i <= n,
                r@ == head + plugin_entries(self@.plugins.subrange(0, i as int)),
            decreases n - i,
        {
            let p = self.plugin_at(i);
            let ghost before = r@;
            if i > 0 {
                r.append(",");
            }
            r.append("{\"name\":");
            let qn = quote(p.name.as_str());
            r.append(qn.as_str());
            r.append(",\"version\":");
            let qv = quote(p.version.as_str());
            r.append(qv.as_str());
            r.append("}");
            proof {
                let s = self@.plugins.subrange(0, i as int + 1);
                assert(s.drop_last() =~= self@.plugins.subrange(0, i as int));
                assert(s.last() == self@.plugins[i as int]);
                if i == 0 {
                    assert(self@.plugins.subrange(0, 0) =~= Seq::<PluginView>::empty());
                    assert(r@ =~= head + plugin_entries(s));
                } else {
                    assert(r@ =~= head + plugin_entries(s));
                }
            }
            i = i + 1;
        }
        r.append("]}");
        assert(self@.plugins.subrange(0, n as int) =~= self@.plugins);
        assert(r@ =~= init_payload(core_version@, self@.plugins));
        r
    }
}

} // verus!
