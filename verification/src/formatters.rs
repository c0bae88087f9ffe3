//! Rendering the final aggregate as text: a JSON document for machines, a
//! plain report for people, and the factory that picks one by name.

use vstd::prelude::*;

verus! {

use vstd::string::StringExecFns;
use crate::aggregate::Aggregate;
use crate::owner_usage::OwnerUsage;
use crate::text::dec_str;
use crate::text::str_eq;
use crate::text::u32_to_dec;

/// A formatter renders the aggregate as text; the caller decides what to do
/// with the text (print it, send it on).  `identifier` names the formatter.
pub trait Formatter {
    /// Render the whole aggregate.
    fn format(&self, aggregate: &Aggregate) -> String;

    /// The name under which the factory resolves this formatter.
    fn identifier(&self) -> &'static str;
}

/// The JSON object rendered for one owner.
pub open spec fn json_entry(owner: u32, u: OwnerUsage) -> Seq<char> {
    "{\n                        \"owner_id\": "@ + dec_str(owner as nat)
        + ",\n                        \"usage\": {\n                            \"video_plays\": "@
        + dec_str(u.spec_video_plays() as nat)
        + ",\n                            \"ad_impressions\": "@ + dec_str(
        u.spec_ad_impressions() as nat,
    ) + "\n                        }\n                    }"@
}

/// The comma-separated JSON objects for an entry list.
pub open spec fn json_list(s: Seq<(u32, OwnerUsage)>) -> Seq<char>
    decreases s.len(),
{
    if s.len() == 0 {
        Seq::empty()
    } else if s.len() == 1 {
        json_entry(s[0].0, s[0].1)
    } else {
        json_entry(s[0].0, s[0].1) + ","@ + json_list(s.skip(1))
    }
}

/// The complete JSON rendering: a bracketed array of owner objects.
pub open spec fn spec_json_report(s: Seq<(u32, OwnerUsage)>) -> Seq<char> {
    "["@ + json_list(s) + "]"@
}

/// Appending an entry appends its object, behind a comma when the list was
/// not empty.
proof fn lemma_json_list_push(s: Seq<(u32, OwnerUsage)>, e: (u32, OwnerUsage))
    ensures
        json_list(s.push(e)) == if s.len() == 0 {
            json_entry(e.0, e.1)
        } else {
            json_list(s) + ","@ + json_entry(e.0, e.1)
        },
    decreases s.len(),
{
    let t = s.push(e);
    if s.len() == 0 {
        assert(t[0] == e);
    } else {
        lemma_json_list_push(s.skip(1), e);
        assert(t.skip(1) =~= s.skip(1).push(e));
        assert(t[0] == s[0]);
        assert(json_list(t) =~= json_list(s) + ","@ + json_entry(e.0, e.1));
    }
}

/// Renders the aggregate as a JSON array, one object per owner, fit for a
/// machine on the other end.
#[derive(Debug)]
pub struct JsonFormatter {}

/// Render the JSON object of one owner.
fn json_entry_string(owner: u32, u: OwnerUsage) -> (r: String)
    ensures
        r@ == json_entry(owner, u),
{
    let owner_text = u32_to_dec(owner);
    let vp = u32_to_dec(u.get_video_plays());
    let ai = u32_to_dec(u.get_ad_impressions());
    let mut out = String::new();
    out.append("{\n                        \"owner_id\": ");
    out.append(owner_text.as_str());
    out.append(
        ",\n                        \"usage\": {\n                            \"video_plays\": ",
    );
    out.append(vp.as_str());
    out.append(",\n                            \"ad_impressions\": ");
    out.append(ai.as_str());
    out.append("\n                        }\n                    }");
    proof {
        assert(out@ =~= json_entry(owner, u));
    }
    out
}

impl JsonFormatter {
    /// Render `aggregate` as the JSON text that `spec_json_report` states.
    pub fn render(&self, aggregate: &Aggregate) -> (r: String)
        ensures
            r@ == spec_json_report(aggregate.entries()),
    {
        let ghost entries = aggregate.entries();
        let mut out = String::new();
        out.append("[");
        let n = aggregate.len();
        let mut i: usize = 0;
        while i < n
            invariant
                0 <= i <= n,
                n == entries.len(),
                entries == aggregate.entries(),
                out@ == "["@ + json_list(entries.take(i as int)) + (if 0 < i < n {
                    ","@
                } else {
                    Seq::<char>::empty()
                }),
            decreases n - i,
        {
            let e = aggregate.entry_at(i);
            let piece = json_entry_string(e.0, e.1);
            out.append(piece.as_str());
            proof {
                lemma_json_list_push(entries.take(i as int), entries[i as int]);
                assert(entries.take(i as int).push(entries[i as int]) =~= entries.take(i + 1));
                assert(out@ =~= "["@ + json_list(entries.take(i + 1)));
            }
            if i + 1 < n {
                out.append(",");
            }
            i += 1;
        }
        out.append("]");
        proof {
            assert(entries.take(n as int) =~= entries);
            assert(out@ =~= spec_json_report(entries));
        }
        out
    }
}

impl Formatter for JsonFormatter {
    fn format(&self, aggregate: &Aggregate) -> String {
        self.render(aggregate)
    }

    fn identifier(&self) -> &'static str {
        "json"
    }
}

/// The plain-text block rendered for one owner.
pub open spec fn report_entry(owner: u32, u: OwnerUsage) -> Seq<char> {
    "Owner with id: "@ + dec_str(owner as nat) + "\n\nUsage\n\n  Video plays: "@ + dec_str(
        u.spec_video_plays() as nat,
    ) + "\n  Ad Impressions: "@ + dec_str(u.spec_ad_impressions() as nat)
        + "\n---------------------------------------\n"@
}

/// The concatenated blocks for an entry list.
pub open spec fn report_list(s: Seq<(u32, OwnerUsage)>) -> Seq<char>
    decreases s.len(),
{
    if s.len() == 0 {
        Seq::empty()
    } else {
        report_entry(s[0].0, s[0].1) + report_list(s.skip(1))
    }
}

/// The complete plain-text rendering: a rule line, then one block per
/// owner, each closed by a rule line.
pub open spec fn spec_plain_report(s: Seq<(u32, OwnerUsage)>) -> Seq<char> {
    "---------------------------------------\n"@ + report_list(s)
}

/// Appending an entry appends its block.
proof fn lemma_report_list_push(s: Seq<(u32, OwnerUsage)>, e: (u32, OwnerUsage))
    ensures
        report_list(s.push(e)) == report_list(s) + report_entry(e.0, e.1),
    decreases s.len(),
{
    let t = s.push(e);
    if s.len() == 0 {
        assert(t[0] == e);
        assert(t.skip(1) =~= Seq::<(u32, OwnerUsage)>::empty());
        assert(report_list(t.skip(1)) == Seq::<char>::empty());
        assert(report_list(t) =~= report_list(s) + report_entry(e.0, e.1));
    } else {
        lemma_report_list_push(s.skip(1), e);
        assert(t.skip(1) =~= s.skip(1).push(e));
        assert(t[0] == s[0]);
        assert(report_list(t) == report_entry(s[0].0, s[0].1) + (report_list(s.skip(1))
            + report_entry(e.0, e.1)));
        assert(report_list(s) == report_entry(s[0].0, s[0].1) + report_list(s.skip(1)));
        assert(report_list(t) =~= report_list(s) + report_entry(e.0, e.1));
    }
}

/// Render the plain-text block of one owner.
fn report_entry_string(owner: u32, u: OwnerUsage) -> (r: String)
    ensures
        r@ == report_entry(owner, u),
{
    let owner_text = u32_to_dec(owner);
    let vp = u32_to_dec(u.get_video_plays());
    let ai = u32_to_dec(u.get_ad_impressions());
    let mut out = String::new();
    out.append("Owner with id: ");
    out.append(owner_text.as_str());
    out.append("\n\nUsage\n\n  Video plays: ");
    out.append(vp.as_str());
    out.append("\n  Ad Impressions: ");
    out.append(ai.as_str());
    out.append("\n---------------------------------------\n");
    proof {
        assert(out@ =~= report_entry(owner, u));
    }
    out
}

/// Renders the aggregate as a plain human-readable report, for printing or
/// for dropping into a log.
#[derive(Debug)]
pub struct StdoutFormatter {}

impl StdoutFormatter {
    /// Render `aggregate` as the report text that `spec_plain_report`
    /// states.
    pub fn render(&self, aggregate: &Aggregate) -> (r: String)
        ensures
            r@ == spec_plain_report(aggregate.entries()),
    {
        let ghost entries = aggregate.entries();
        let mut out = String::new();
        out.append("---------------------------------------\n");
        let n = aggregate.len();
        let mut i: usize = 0;
        proof {
            assert(entries.take(0) =~= Seq::<(u32, OwnerUsage)>::empty());
            assert(out@ =~= "---------------------------------------\n"@ + report_list(
                entries.take(0),
            ));
        }
        while i < n
            invariant
                0 <= i <= n,
                n == entries.len(),
                entries == aggregate.entries(),
                out@ == "---------------------------------------\n"@ + report_list(
                    entries.take(i as int),
                ),
            decreases n - i,
        {
            let e = aggregate.entry_at(i);
            let piece = report_entry_string(e.0, e.1);
            out.append(piece.as_str());
            proof {
                lemma_report_list_push(entries.take(i as int), entries[i as int]);
                assert(entries.take(i as int).push(entries[i as int]) =~= entries.take(i + 1));
                assert(out@ =~= "---------------------------------------\n"@ + report_list(
                    entries.take(i + 1),
                ));
            }
            i += 1;
        }
        proof {
            assert(entries.take(n as int) =~= entries);
        }
        out
    }
}

impl Formatter for StdoutFormatter {
    fn format(&self, aggregate: &Aggregate) -> String {
        self.render(aggregate)
    }

    fn identifier(&self) -> &'static str {
        "stdout"
    }
}

/// A formatter the factory resolved, ready to be applied.
#[derive(Debug)]
pub enum ResolvedFormatter {
    /// The JSON renderer.
    Json(JsonFormatter),
    /// The plain-text renderer.
    Stdout(StdoutFormatter),
}

impl ResolvedFormatter {
    /// Render `aggregate` with the resolved formatter.
    pub fn format(&self, aggregate: &Aggregate) -> (r: String)
        ensures
            r@ == match self {
                ResolvedFormatter::Json(_) => spec_json_report(aggregate.entries()),
                ResolvedFormatter::Stdout(_) => spec_plain_report(aggregate.entries()),
            },
    {
        match self {
            ResolvedFormatter::Json(f) => f.render(aggregate),
            ResolvedFormatter::Stdout(f) => f.render(aggregate),
        }
    }

    /// The resolved formatter's name.
    pub fn identifier(&self) -> (r: &'static str)
        ensures
            r@ == match self {
                ResolvedFormatter::Json(_) => "json"@,
                ResolvedFormatter::Stdout(_) => "stdout"@,
            },
    {
        match self {
            ResolvedFormatter::Json(_) => "json",
            ResolvedFormatter::Stdout(_) => "stdout",
        }
    }
}

/// Picks the formatter that a command-line name refers to.
pub struct FormatterFactory {}

impl FormatterFactory {
    /// Resolve `formatter_from_cli` to a formatter: `json` and `stdout` are
    /// the known ones; any other name is an error naming the stranger.
    pub fn resolve_formatter(formatter_from_cli: &str) -> (r: Result<ResolvedFormatter, String>)
        ensures
            formatter_from_cli@ == "json"@ ==> (r matches Ok(f) && f is Json),
            formatter_from_cli@ == "stdout"@ ==> (r matches Ok(f) && f is Stdout),
            formatter_from_cli@ != "json"@ && formatter_from_cli@ != "stdout"@ ==> (r matches Err(m)
                && m@ == "Unknown formatter: "@ + formatter_from_cli@),
    {
        proof {
            reveal_strlit("json");
            reveal_strlit("stdout");
        }
        if str_eq(formatter_from_cli, "json") {
            proof {
                assert("json"@.len() == 4);
                assert("stdout"@.len() == 6);
                assert(formatter_from_cli@ != "stdout"@);
            }
            Ok(ResolvedFormatter::Json(JsonFormatter {  }))
        } else if str_eq(formatter_from_cli, "stdout") {
            Ok(ResolvedFormatter::Stdout(StdoutFormatter {  }))
        } else {
            let mut m = String::new();
            m.append("Unknown formatter: ");
            m.append(formatter_from_cli);
            proof {
                assert(m@ =~= "Unknown formatter: "@ + formatter_from_cli@);
            }
            Err(m)
        }
    }
}

} // verus!
