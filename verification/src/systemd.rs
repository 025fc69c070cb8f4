//! Running executions as transient `systemd-run` user units: whether it is
//! switched on, the unit's name, and the command line that starts it.
use vstd::prelude::*;
use crate::ids::{format_uuid_simple, random_uuid, uuid_simple_text};
use crate::text::{is_ascii_alnum, lower, lower_char, lower_str, push_char, str_eq, trim, trim_str};

verus! {

/// A switch value that turns a feature on: `1`, `true`, `yes` or `on`, in
/// any ASCII case and with surrounding whitespace.
pub open spec fn switch_on(value: Seq<char>) -> bool {
    let l = lower(trim(value));
    l == "1"@ || l == "true"@ || l == "yes"@ || l == "on"@
}

/// Whether executions run as transient units: the first of
/// `VK_USE_SYSTEMD_RUN` and `VK_LAB_USE_SYSTEMD_RUN` that is set turns it
/// on.
pub fn systemd_run_enabled(primary: Option<&str>, fallback: Option<&str>) -> (r: bool)
    ensures
        r == switch_on(
            match primary {
                Some(p) => p@,
                None => match fallback {
                    Some(f) => f@,
                    None => Seq::empty(),
                },
            },
        ),
{
    let value = match primary {
        Some(p) => p,
        None => match fallback {
            Some(f) => f,
            None => "",
        },
    };
    proof {
        if primary is None && fallback is None {
            reveal_strlit("");
            assert(value@ =~= Seq::<char>::empty());
        }
    }
    let l = lower_str(trim_str(value));
    str_eq(l.as_str(), "1") || str_eq(l.as_str(), "true") || str_eq(l.as_str(), "yes") || str_eq(
        l.as_str(),
        "on",
    )
}

/// A variable's value where it is set and not blank.
pub open spec fn set_value(o: Option<String>) -> Option<Seq<char>> {
    match o {
        Some(v) => if trim(v@).len() > 0 {
            Some(v@)
        } else {
            None
        },
        None => None,
    }
}

/// The first of two variables whose value is not blank, as it is.
pub fn env_value(primary: Option<String>, fallback: Option<String>) -> (r: Option<String>)
    ensures
        match r {
            Some(v) => Some(v@) == (if set_value(primary) is Some {
                set_value(primary)
            } else {
                set_value(fallback)
            }),
            None => set_value(primary) is None && set_value(fallback) is None,
        },
{
    match primary {
        Some(p) => {
            if trim_str(p.as_str()).unicode_len() > 0 {
                return Some(p);
            }
        },
        None => {},
    }
    match fallback {
        Some(f) => {
            if trim_str(f.as_str()).unicode_len() > 0 {
                Some(f)
            } else {
                None
            }
        },
        None => None,
    }
}

/// A character of a unit name: ASCII letters and digits lower-cased, `-`
/// and `_` kept, anything else a `-`.
pub open spec fn unit_char(c: char) -> char {
    if is_ascii_alnum(c) || c == '-' || c == '_' {
        lower_char(c)
    } else {
        '-'
    }
}

/// `s` without leading and trailing `-`.
pub open spec fn trim_dashes(s: Seq<char>) -> Seq<char>
    decreases s.len(),
{
    if s.len() > 0 && s[0] == '-' {
        trim_dashes(s.drop_first())
    } else if s.len() > 0 && s.last() == '-' {
        trim_dashes(s.drop_last())
    } else {
        s
    }
}

/// The name part a prefix gives a unit: its characters made safe, without
/// leading and trailing dashes, `exec` where nothing is left.
pub open spec fn unit_label(prefix: Seq<char>) -> Seq<char> {
    let c = trim_dashes(prefix.map_values(|c: char| unit_char(c)));
    if c.len() == 0 {
        "exec"@
    } else {
        c
    }
}

/// The name of a transient unit: `vk-exec-<label>-<uuid>.service`.
pub open spec fn unit_name_spec(prefix: Seq<char>, id: u128) -> Seq<char> {
    "vk-exec-"@ + unit_label(prefix) + "-"@ + uuid_simple_text(id) + ".service"@
}

proof fn lemma_trim_dashes_ends(s: Seq<char>, i: int, j: int)
    requires
        0 <= i <= j <= s.len(),
        forall|k: int| 0 <= k < i ==> s[k] == '-',
        forall|k: int| j <= k < s.len() ==> s[k] == '-',
        i < j ==> s[i] != '-' && s[j - 1] != '-',
        i == j ==> j == s.len(),
    ensures
        trim_dashes(s) == s.subrange(i, j),
    decreases s.len(),
{
    if s.len() > 0 && s[0] == '-' {
        let t = s.drop_first();
        if i > 0 {
            lemma_trim_dashes_ends(t, i - 1, j - 1);
            assert(t.subrange(i - 1, j - 1) =~= s.subrange(i, j));
        } else {
            assert(i < j);
        }
    } else if s.len() > 0 && s.last() == '-' {
        let t = s.drop_last();
        if j < s.len() {
            lemma_trim_dashes_ends(t, i, j);
            assert(t.subrange(i, j) =~= s.subrange(i, j));
        } else {
            if i == j {
                assert(s[0] == '-');
            }
        }
    } else {
        if i > 0 {
            assert(s[0] == '-');
        }
        if j < s.len() {
            assert(s.last() == '-');
        }
        assert(s.subrange(i, j) =~= s);
    }
}

/// The name a unit with this prefix and id gets, as [`unit_name_spec`]
/// says.
pub fn unit_name_for(prefix: &str, id: u128) -> (r: String)
    ensures
        r@ == unit_name_spec(prefix@, id),
{
    let n = prefix.unicode_len();
    let mut mapped = String::new();
    let mut i: usize = 0;
    while i < n
        invariant
            n == prefix@.len(),
            i <= n,
            mapped@ == prefix@.subrange(0, i as int).map_values(|c: char| unit_char(c)),
        decreases n - i,
    {
        let c = prefix.get_char(i);
        let d = if crate::text::is_ascii_alnum_char(c) || c == '-' || c == '_' {
            crate::text::lower_ascii_char(c)
        } else {
            '-'
        };
        push_char(&mut mapped, d);
        proof {
            assert(prefix@.subrange(0, i + 1).map_values(|c: char| unit_char(c)) =~= prefix@.subrange(
                0,
                i as int,
            ).map_values(|c: char| unit_char(c)).push(d));
        }
        i = i + 1;
    }
    let ghost m = prefix@.map_values(|c: char| unit_char(c));
    proof {
        assert(prefix@.subrange(0, n as int) =~= prefix@);
        assert(mapped@ == m);
    }
    let mut a: usize = 0;
    while a < n && mapped.get_char(a) == '-'
        invariant
            n == mapped@.len(),
            a <= n,
            forall|k: int| 0 <= k < a ==> mapped@[k] == '-',
        decreases n - a,
    {
        a = a + 1;
    }
    let mut b: usize = n;
    while b > a && mapped.get_char(b - 1) == '-'
        invariant
            n == mapped@.len(),
            a <= b <= n,
            forall|k: int| b <= k < n ==> mapped@[k] == '-',
        decreases b,
    {
        b = b - 1;
    }
    proof {
        lemma_trim_dashes_ends(mapped@, a as int, b as int);
    }
    let cleaned = mapped.substring_char(a, b);
    let label = if cleaned.unicode_len() == 0 {
        "exec"
    } else {
        cleaned
    };
    "vk-exec-".to_string().concat(label).concat("-").concat(format_uuid_simple(id).as_str()).concat(".service")
}

/// A fresh unit name for an execution: the prefix's label and a random
/// UUID, which no two units are meant to share.
pub fn build_unit_name(prefix: &str) -> (r: String)
    ensures
        exists|id: u128| r@ == unit_name_spec(prefix@, id),
{
    let id = random_uuid();
    unit_name_for(prefix, id)
}

/// How the unit's standard input is connected.
#[derive(Clone, Copy, Debug, PartialEq, Eq, Structural)]
pub enum StdinMode {
    Null,
    Piped,
}

/// Texts as plain values.
pub open spec fn texts(xs: Seq<String>) -> Seq<Seq<char>> {
    xs.map_values(|x: String| x@)
}

/// `--setenv=<key>=<value>` for each variable, in order.
pub open spec fn setenv_args(vars: Seq<(String, String)>) -> Seq<Seq<char>> {
    vars.map_values(|v: (String, String)| "--setenv="@ + v.0@ + "="@ + v.1@)
}

/// The arguments of `systemd-run` that start a program as a transient user
/// unit: piped, collected when done, quiet, started as soon as it runs,
/// with the memory limits where they are configured and the given
/// environment, then the program and its arguments.
pub open spec fn unit_args_spec(
    unit_name: Seq<char>,
    description: Seq<char>,
    current_dir: Seq<char>,
    memory_high: Option<Seq<char>>,
    memory_max: Option<Seq<char>>,
    env_vars: Seq<(String, String)>,
    program: Seq<char>,
    args: Seq<Seq<char>>,
) -> Seq<Seq<char>> {
    seq![
        "--user"@,
        "--pipe"@,
        "--collect"@,
        "--quiet"@,
        "--service-type=exec"@,
        "--unit"@,
        unit_name,
        "--working-directory"@,
        current_dir,
        "--description"@,
        description,
    ] + match memory_high {
        Some(v) => seq!["--property=MemoryHigh="@ + v],
        None => Seq::empty(),
    } + match memory_max {
        Some(v) => seq!["--property=MemoryMax="@ + v],
        None => Seq::empty(),
    } + setenv_args(env_vars) + seq![program] + args
}

fn push_str_arg(out: &mut Vec<String>, s: &str)
    ensures
        texts(final(out)@) == texts(old(out)@).push(s@),
{
    out.push(String::from_str(s));
    proof {
        assert(texts(out@) =~= texts(old(out)@).push(s@));
    }
}

/// The arguments of `systemd-run` for a unit, as [`unit_args_spec`] says.
pub fn systemd_run_args(
    unit_name: &str,
    description: &str,
    current_dir: &str,
    memory_high: Option<String>,
    memory_max: Option<String>,
    env_vars: &Vec<(String, String)>,
    program: &str,
    args: &Vec<String>,
) -> (r: Vec<String>)
    ensures
        texts(r@) == unit_args_spec(
            unit_name@,
            description@,
            current_dir@,
            match memory_high {
                Some(v) => Some(v@),
                None => None,
            },
            match memory_max {
                Some(v) => Some(v@),
                None => None,
            },
            env_vars@,
            program@,
            texts(args@),
        ),
{
    let mut out: Vec<String> = Vec::new();
    push_str_arg(&mut out, "--user");
    push_str_arg(&mut out, "--pipe");
    push_str_arg(&mut out, "--collect");
    push_str_arg(&mut out, "--quiet");
    push_str_arg(&mut out, "--service-type=exec");
    push_str_arg(&mut out, "--unit");
    push_str_arg(&mut out, unit_name);
    push_str_arg(&mut out, "--working-directory");
    push_str_arg(&mut out, current_dir);
    push_str_arg(&mut out, "--description");
    push_str_arg(&mut out, description);
    let ghost head = texts(out@);
    match &memory_high {
        Some(v) => {
            let a = "--property=MemoryHigh=".to_string().concat(v.as_str());
            push_str_arg(&mut out, a.as_str());
        },
        None => {},
    }
    match &memory_max {
        Some(v) => {
            let a = "--property=MemoryMax=".to_string().concat(v.as_str());
            push_str_arg(&mut out, a.as_str());
        },
        None => {},
    }
    let ghost with_limits = texts(out@);
    let mut i: usize = 0;
    while i < env_vars.len()
        invariant
            i <= env_vars@.len(),
            texts(out@) == with_limits + setenv_args(env_vars@.subrange(0, i as int)),
        decreases env_vars@.len() - i,
    {
        let a = "--setenv=".to_string().concat(env_vars[i].0.as_str()).concat("=").concat(env_vars[i].1.as_str());
        push_str_arg(&mut out, a.as_str());
        proof {
            assert(setenv_args(env_vars@.subrange(0, i + 1)) =~= setenv_args(env_vars@.subrange(0, i as int)).push(a@));
        }
        i = i + 1;
    }
    proof {
        assert(env_vars@.subrange(0, env_vars@.len() as int) =~= env_vars@);
    }
    let ghost with_env = texts(out@);
    push_str_arg(&mut out, program);
    let mut k: usize = 0;
    while k < args.len()
        invariant
            k <= args@.len(),
            texts(out@) == with_env.push(program@) + texts(args@.subrange(0, k as int)),
        decreases args@.len() - k,
    {
        push_str_arg(&mut out, args[k].as_str());
        proof {
            assert(texts(args@.subrange(0, k + 1)) =~= texts(args@.subrange(0, k as int)).push(args@[k as int]@));
        }
        k = k + 1;
    }
    proof {
        assert(args@.subrange(0, args@.len() as int) =~= args@);
        reveal_strlit("--property=MemoryHigh=");
        reveal_strlit("--property=MemoryMax=");
        assert(texts(out@) =~= unit_args_spec(
            unit_name@,
            description@,
            current_dir@,
            match memory_high {
                Some(v) => Some(v@),
                None => None,
            },
            match memory_max {
                Some(v) => Some(v@),
                None => None,
            },
            env_vars@,
            program@,
            texts(args@),
        ));
    }
    out
}

/// The arguments of `systemctl` that stop a transient unit.
pub fn stop_unit_args(unit_name: &str) -> (r: Vec<String>)
    ensures
        texts(r@) == seq!["--user"@, "stop"@, unit_name@],
{
    let mut out: Vec<String> = Vec::new();
    push_str_arg(&mut out, "--user");
    push_str_arg(&mut out, "stop");
    push_str_arg(&mut out, unit_name);
    proof {
        assert(texts(out@) =~= seq!["--user"@, "stop"@, unit_name@]);
    }
    out
}

/// The error a failed stop of a unit reports, with what `systemctl` wrote
/// on standard error.
pub fn stop_failure_message(unit_name: &str, stderr: &str) -> (r: String)
    ensures
        r@ == "systemctl stop "@ + unit_name@ + " failed: "@ + stderr@,
{
    "systemctl stop ".to_string().concat(unit_name).concat(" failed: ").concat(stderr)
}

} // verus!
