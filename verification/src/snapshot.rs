//! The serialized snapshot that a status request answers with: the service
//! record as a JSON object, plain or pretty-printed.

use vstd::prelude::*;

use crate::cache::ServiceView;
use crate::config::{Orchestrators, UserProvidedConfigView};
use crate::text::push_char;
use vstd::string::StringExecFns;

verus! {

/// How one character is written inside a JSON string.
pub open spec fn json_escape_char(c: char) -> Seq<char> {
    if c == '"' {
        seq!['\\', '"']
    } else if c == '\\' {
        seq!['\\', '\\']
    } else if c == '\n' {
        seq!['\\', 'n']
    } else if c == '\r' {
        seq!['\\', 'r']
    } else if c == '\t' {
        seq!['\\', 't']
    } else {
        seq![c]
    }
}

/// A whole character sequence, escaped.
pub open spec fn json_escaped(s: Seq<char>) -> Seq<char>
    decreases s.len(),
{
    if s.len() == 0 {
        Seq::empty()
    } else {
        json_escape_char(s[0]) + json_escaped(s.drop_first())
    }
}

proof fn lemma_json_escaped_snoc(s: Seq<char>, c: char)
    ensures
        json_escaped(s.push(c)) == json_escaped(s) + json_escape_char(c),
    decreases s.len(),
{
    if s.len() == 0 {
        let t = s.push(c);
        assert(t[0] == c);
        assert(t.drop_first() =~= Seq::<char>::empty());
        assert(json_escaped(t.drop_first()) == Seq::<char>::empty());
        assert(json_escape_char(c) + Seq::<char>::empty() =~= Seq::<char>::empty()
            + json_escape_char(c));
    } else {
        assert(s.push(c).drop_first() =~= s.drop_first().push(c));
        lemma_json_escaped_snoc(s.drop_first(), c);
        assert(s.push(c)[0] == s[0]);
        assert(json_escape_char(s[0]) + (json_escaped(s.drop_first()) + json_escape_char(c))
            =~= (json_escape_char(s[0]) + json_escaped(s.drop_first())) + json_escape_char(c));
    }
}

/// A quoted and escaped JSON string.
pub open spec fn json_str(s: Seq<char>) -> Seq<char> {
    seq!['"'] + json_escaped(s) + seq!['"']
}

/// An optional string: `null` when absent.
pub open spec fn json_opt_str(o: Option<Seq<char>>) -> Seq<char> {
    match o {
        None => "null"@,
        Some(s) => json_str(s),
    }
}

/// The decimal digits of a number.
pub open spec fn spec_udec(n: int) -> Seq<char>
    decreases n,
{
    if n < 10 {
        seq![digit_char(n)]
    } else {
        spec_udec(n / 10) + seq![digit_char(n % 10)]
    }
}

/// The character of one decimal digit.
pub open spec fn digit_char(d: int) -> char {
    if d == 0 {
        '0'
    } else if d == 1 {
        '1'
    } else if d == 2 {
        '2'
    } else if d == 3 {
        '3'
    } else if d == 4 {
        '4'
    } else if d == 5 {
        '5'
    } else if d == 6 {
        '6'
    } else if d == 7 {
        '7'
    } else if d == 8 {
        '8'
    } else {
        '9'
    }
}

/// An optional number: `null` when absent.
pub open spec fn json_opt_u16(o: Option<u16>) -> Seq<char> {
    match o {
        None => "null"@,
        Some(n) => spec_udec(n as int),
    }
}

/// A JSON boolean.
pub open spec fn json_bool(b: bool) -> Seq<char> {
    if b {
        "true"@
    } else {
        "false"@
    }
}

/// The orchestrator variant's name, quoted.
pub open spec fn json_orch(o: Orchestrators) -> Seq<char> {
    match o {
        Orchestrators::SkyPilot => "\"SkyPilot\""@,
        Orchestrators::Local => "\"Local\""@,
    }
}

/// The caller's override as a JSON object, or `null` when none was given.
pub open spec fn json_opt_config(o: Option<UserProvidedConfigView>) -> Seq<char> {
    match o {
        None => "null"@,
        Some(c) => json_config(c),
    }
}

/// The override's twelve fields as a JSON object.
pub open spec fn json_config(c: UserProvidedConfigView) -> Seq<char> {
    "{\"port\":"@ + json_opt_u16(c.port) + ",\"replicas\":"@ + json_opt_u16(c.replicas)
        + ",\"readiness_probe\":"@ + json_opt_str(c.readiness_probe) + ",\"replica_up_check\":"@
        + json_opt_str(c.replica_up_check) + ",\"cloud\":"@ + json_opt_str(c.cloud)
        + ",\"workdir\":"@ + json_opt_str(c.workdir) + ",\"disk_size\":"@ + json_opt_u16(
        c.disk_size,
    ) + ",\"cpu\":"@ + json_opt_str(c.cpu) + ",\"memory\":"@ + json_opt_str(c.memory)
        + ",\"accelerators\":"@ + json_opt_str(c.accelerators) + ",\"setup\":"@ + json_opt_str(
        c.setup,
    ) + ",\"run\":"@ + json_opt_str(c.run) + "}"@
}

/// The snapshot of one record, plain or pretty-printed.
pub open spec fn spec_snapshot(v: ServiceView, pretty: bool) -> Seq<char> {
    if pretty {
        "{\n  \"config\": "@ + json_opt_config(v.config) + ",\n  \"orchestrator\": "@ + json_orch(
            v.orchestrator,
        ) + ",\n  \"filepath\": "@ + json_opt_str(v.filepath) + ",\n  \"readiness_probe\": "@
            + json_str(v.readiness_probe) + ",\n  \"url\": "@ + json_opt_str(v.url)
            + ",\n  \"up\": "@ + json_bool(v.up) + "\n}"@
    } else {
        "{\"config\":"@ + json_opt_config(v.config) + ",\"orchestrator\":"@ + json_orch(
            v.orchestrator,
        ) + ",\"filepath\":"@ + json_opt_str(v.filepath) + ",\"readiness_probe\":"@ + json_str(
            v.readiness_probe,
        ) + ",\"url\":"@ + json_opt_str(v.url) + ",\"up\":"@ + json_bool(v.up) + "}"@
    }
}

/// Appends a string's characters, escaped for JSON.
fn append_escaped(out: &mut String, s: &str)
    ensures
        final(out)@ == old(out)@ + json_escaped(s@),
{
    let cs = crate::text::chars_vec(s);
    let n = cs.len();
    proof {
        assert(s@.take(0) =~= Seq::<char>::empty());
        assert(out@ + json_escaped(s@.take(0)) =~= out@);
    }
    for i in 0..n
        invariant
            n == s@.len(),
            cs@ == s@,
            out@ == old(out)@ + json_escaped(s@.take(i as int)),
    {
        let c = cs[i];
        if c == '"' {
            out.append("\\\"");
        } else if c == '\\' {
            out.append("\\\\");
        } else if c == '\n' {
            out.append("\\n");
        } else if c == '\r' {
            out.append("\\r");
        } else if c == '\t' {
            out.append("\\t");
        } else {
            push_char(out, c);
        }
        proof {
            lemma_json_escaped_snoc(s@.take(i as int), s@[i as int]);
            assert(s@.take(i + 1) =~= s@.take(i as int).push(s@[i as int]));
            reveal_strlit("\\\"");
            reveal_strlit("\\\\");
            reveal_strlit("\\n");
            reveal_strlit("\\r");
            reveal_strlit("\\t");
            assert(out@ =~= old(out)@ + json_escaped(s@.take(i + 1)));
        }
    }
    proof {
        assert(s@.take(n as int) =~= s@);
    }
}

/// Appends a quoted, escaped JSON string.
fn append_json_str(out: &mut String, s: &str)
    ensures
        final(out)@ == old(out)@ + json_str(s@),
{
    push_char(out, '"');
    append_escaped(out, s);
    push_char(out, '"');
    proof {
        assert(final(out)@ =~= old(out)@ + json_str(s@));
    }
}

/// Appends an optional string, `null` when absent.
fn append_json_opt_str(out: &mut String, o: &Option<String>)
    ensures
        final(out)@ == old(out)@ + json_opt_str(o.deep_view()),
{
    match o {
        None => {
            out.append("null");
        },
        Some(s) => {
            append_json_str(out, s.as_str());
        },
    }
}

/// The decimal digits of a number, as text.
fn append_udec(out: &mut String, n: u16)
    ensures
        final(out)@ == old(out)@ + spec_udec(n as int),
    decreases n,
{
    if n < 10 {
        let c = match n {
            0 => '0',
            1 => '1',
            2 => '2',
            3 => '3',
            4 => '4',
            5 => '5',
            6 => '6',
            7 => '7',
            8 => '8',
            _ => '9',
        };
        push_char(out, c);
        proof {
            assert(final(out)@ =~= old(out)@ + spec_udec(n as int));
        }
    } else {
        append_udec(out, n / 10);
        let d = n % 10;
        let c = match d {
            0 => '0',
            1 => '1',
            2 => '2',
            3 => '3',
            4 => '4',
            5 => '5',
            6 => '6',
            7 => '7',
            8 => '8',
            _ => '9',
        };
        push_char(out, c);
        proof {
            assert((n as int) / 10 == (n / 10) as int);
            assert((n as int) % 10 == (n % 10) as int);
            assert(final(out)@ =~= old(out)@ + spec_udec(n as int));
        }
    }
}

/// Appends an optional number, `null` when absent.
fn append_json_opt_u16(out: &mut String, o: &Option<u16>)
    ensures
        final(out)@ == old(out)@ + json_opt_u16(*o),
{
    match o {
        None => {
            out.append("null");
        },
        Some(n) => {
            append_udec(out, *n);
        },
    }
}

/// The override object as a string, `null` when none was given.
#[verifier::rlimit(100)]
fn config_json_string(o: &Option<crate::config::UserProvidedConfig>) -> (r: String)
    ensures
        r@ == json_opt_config(
            match o {
                Some(c) => Some(c@),
                None => None,
            },
        ),
{
    let mut out = String::new();
    let c = match o {
        None => {
            out.append("null");
            proof {
                assert(out@ =~= "null"@);
            }
            return out;
        },
        Some(c) => c,
    };
    out.append("{\"port\":");
    proof {
        assert(out@ =~= "{\"port\":"@);
    }
    append_json_opt_u16(&mut out, &c.port);
    out.append(",\"replicas\":");
    append_json_opt_u16(&mut out, &c.replicas);
    out.append(",\"readiness_probe\":");
    append_json_opt_str(&mut out, &c.readiness_probe);
    out.append(",\"replica_up_check\":");
    append_json_opt_str(&mut out, &c.replica_up_check);
    out.append(",\"cloud\":");
    append_json_opt_str(&mut out, &c.cloud);
    out.append(",\"workdir\":");
    append_json_opt_str(&mut out, &c.workdir);
    out.append(",\"disk_size\":");
    append_json_opt_u16(&mut out, &c.disk_size);
    out.append(",\"cpu\":");
    append_json_opt_str(&mut out, &c.cpu);
    out.append(",\"memory\":");
    append_json_opt_str(&mut out, &c.memory);
    out.append(",\"accelerators\":");
    append_json_opt_str(&mut out, &c.accelerators);
    out.append(",\"setup\":");
    append_json_opt_str(&mut out, &c.setup);
    out.append(",\"run\":");
    append_json_opt_str(&mut out, &c.run);
    out.append("}");
    proof {
        assert(out@ == json_config(c@));
    }
    out
}

/// Appends the override object, `null` when none was given.
fn append_json_config(out: &mut String, o: &Option<crate::config::UserProvidedConfig>)
    ensures
        final(out)@ == old(out)@ + json_opt_config(
            match o {
                Some(c) => Some(c@),
                None => None,
            },
        ),
{
    let piece = config_json_string(o);
    out.append(piece.as_str());
}

/// The snapshot of one record, pretty-printed.
#[verifier::rlimit(100)]
fn render_pretty(record: &crate::cache::Service) -> (r: String)
    ensures
        r@ == spec_snapshot(record@, true),
{
    let mut out = String::new();
    out.append("{\n  \"config\": ");
    proof {
        assert(out@ =~= "{\n  \"config\": "@);
    }
    append_json_config(&mut out, &record.config);
    out.append(",\n  \"orchestrator\": ");
    match record.orchestrator {
        Orchestrators::SkyPilot => out.append("\"SkyPilot\""),
        Orchestrators::Local => out.append("\"Local\""),
    }
    out.append(",\n  \"filepath\": ");
    append_json_opt_str(&mut out, &record.filepath);
    out.append(",\n  \"readiness_probe\": ");
    append_json_str(&mut out, record.readiness_probe.as_str());
    out.append(",\n  \"url\": ");
    append_json_opt_str(&mut out, &record.url);
    out.append(",\n  \"up\": ");
    out.append(if record.up {
        "true"
    } else {
        "false"
    });
    out.append("\n}");
    proof {
        assert(out@ == spec_snapshot(record@, true));
    }
    out
}

/// The snapshot of one record, on a single line.
#[verifier::rlimit(100)]
fn render_plain(record: &crate::cache::Service) -> (r: String)
    ensures
        r@ == spec_snapshot(record@, false),
{
    let mut out = String::new();
    out.append("{\"config\":");
    proof {
        assert(out@ =~= "{\"config\":"@);
    }
    append_json_config(&mut out, &record.config);
    out.append(",\"orchestrator\":");
    match record.orchestrator {
        Orchestrators::SkyPilot => out.append("\"SkyPilot\""),
        Orchestrators::Local => out.append("\"Local\""),
    }
    out.append(",\"filepath\":");
    append_json_opt_str(&mut out, &record.filepath);
    out.append(",\"readiness_probe\":");
    append_json_str(&mut out, record.readiness_probe.as_str());
    out.append(",\"url\":");
    append_json_opt_str(&mut out, &record.url);
    out.append(",\"up\":");
    out.append(if record.up {
        "true"
    } else {
        "false"
    });
    out.append("}");
    proof {
        assert(out@ == spec_snapshot(record@, false));
    }
    out
}

/// The snapshot of one record as a string, plain or pretty-printed.
pub fn render_snapshot(record: &crate::cache::Service, pretty: bool) -> (r: String)
    ensures
        r@ == spec_snapshot(record@, pretty),
{
    if pretty {
        render_pretty(record)
    } else {
        render_plain(record)
    }
}

} // verus!
