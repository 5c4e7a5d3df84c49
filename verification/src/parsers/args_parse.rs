//! The command line: `--dir`, `--dbfilename`, `--port` and `--replicaof`
//! set configuration entries.

use crate::search;
use crate::search::text_is;
use crate::store::{map_config_insert, Store, StoreModel};
use crate::types::Abort;
use vstd::prelude::*;

verus! {

/// The host and port of a `--replicaof` value: the text before its first
/// space, and the text after that space up to the next one (or the end).
/// `None` when there is no space.
pub open spec fn spec_host_port(s: Seq<char>) -> Option<(Seq<char>, Seq<char>)> {
    match search::first_index_of(s, ' ') {
        None => None,
        Some(p) => {
            let rest = s.skip(p + 1);
            Some(
                (
                    s.take(p),
                    match search::first_index_of(rest, ' ') {
                        Some(q) => rest.take(q),
                        None => rest,
                    },
                ),
            )
        },
    }
}

/// The configuration entries that argument `i` sets; `None` when a flag
/// has no value after it, or `--replicaof` has no space in its value.
pub open spec fn spec_arg_entries(args: Seq<Seq<char>>, i: int) -> Option<Seq<(Seq<char>, Seq<char>)>> {
    let a = args[i];
    if a == "--dir"@ || a == "--dbfilename"@ || a == "--port"@ || a == "--replicaof"@ {
        if i + 1 >= args.len() {
            None
        } else if a == "--dir"@ {
            Some(seq![("dir"@, args[i + 1])])
        } else if a == "--dbfilename"@ {
            Some(seq![("dbfilename"@, args[i + 1])])
        } else if a == "--port"@ {
            Some(seq![("port"@, args[i + 1])])
        } else {
            match spec_host_port(args[i + 1]) {
                None => None,
                Some((h, p)) => Some(seq![("master_host"@, h), ("master_port"@, p)]),
            }
        }
    } else {
        Some(Seq::empty())
    }
}

/// The entries set by arguments `1..n`, in order (argument `0` is the
/// program); every argument is looked at, values included.
pub open spec fn spec_args(args: Seq<Seq<char>>, n: int) -> Option<Seq<(Seq<char>, Seq<char>)>>
    decreases n,
{
    if n <= 1 {
        Some(Seq::empty())
    } else {
        match spec_args(args, n - 1) {
            None => None,
            Some(es) => match spec_arg_entries(args, n - 1) {
                None => None,
                Some(e) => Some(es + e),
            },
        }
    }
}

proof fn lemma_args_abort_persists(args: Seq<Seq<char>>, i: int, n: int)
    requires
        i <= n,
        spec_args(args, i) is None,
    ensures
        spec_args(args, n) is None,
    decreases n - i,
{
    if n > i {
        lemma_args_abort_persists(args, i, n - 1);
    }
}

/// The store after setting each configuration entry in turn.
pub open spec fn apply_config(s: StoreModel, es: Seq<(Seq<char>, Seq<char>)>) -> StoreModel
    decreases es.len(),
{
    if es.len() == 0 {
        s
    } else {
        apply_config(s, es.drop_last()).config_insert(es.last().0, es.last().1)
    }
}

/// The texts of key/value string pairs.
pub open spec fn pair_views(v: Seq<(String, String)>) -> Seq<(Seq<char>, Seq<char>)> {
    v.map_values(|e: (String, String)| (e.0@, e.1@))
}

/// The position of the first `c` in `s`.
fn find_char(s: &str, c: char) -> (r: Option<usize>)
    ensures
        match r {
            Some(i) => search::first_index_of(s@, c) == Some(i as int) && i < s@.len(),
            None => search::first_index_of(s@, c) is None,
        },
{
    let n = s.unicode_len();
    let mut i: usize = 0;
    while i < n
        invariant
            n == s@.len(),
            i <= n,
            forall|j: int| 0 <= j < i ==> s@[j] != c,
        decreases n - i,
    {
        if s.get_char(i) == c {
            proof {
                search::lemma_first_index_of(s@, c);
            }
            return Some(i);
        }
        i = i + 1;
    }
    proof {
        search::lemma_first_index_of(s@, c);
    }
    None
}

/// Splits a `--replicaof` value into host and port; see `spec_host_port`.
fn host_port(s: &String) -> (r: Option<(String, String)>)
    ensures
        match spec_host_port(s@) {
            Some((h, p)) => r matches Some((h2, p2)) && h2@ == h && p2@ == p,
            None => r is None,
        },
{
    let text = s.as_str();
    let p = match find_char(text, ' ') {
        Some(p) => p,
        None => return None,
    };
    let n = text.unicode_len();
    let host = text.substring_char(0, p).to_owned();
    let rest = text.substring_char(p + 1, n);
    assert(rest@ =~= s@.skip(p + 1));
    assert(host@ =~= s@.take(p as int));
    let port = match find_char(rest, ' ') {
        Some(q) => {
            let t = rest.substring_char(0, q);
            assert(t@ =~= rest@.take(q as int));
            t.to_owned()
        },
        None => rest.to_owned(),
    };
    Some((host, port))
}

/// Sets the configuration from the command line `args` (program name
/// first); see `spec_args`. Where a flag lacks its value, nothing is set
/// and `Err(Abort)` comes back.
pub fn parse(store: &mut Store, args: &Vec<String>) -> (r: Result<(), Abort>)
    requires
        old(store).wf(),
    ensures
        final(store).wf(),
        match spec_args(crate::store::string_views(args@), args@.len() as int) {
            Some(es) => r is Ok && final(store)@ == apply_config(old(store)@, es),
            None => r is Err && final(store)@ == old(store)@,
        },
{
    let ghost a = crate::store::string_views(args@);
    assert(forall|k: int| 0 <= k < args@.len() ==> #[trigger] a[k] == args@[k]@);
    let mut entries: Vec<(String, String)> = Vec::new();
    let ghost mut es: Seq<(Seq<char>, Seq<char>)> = Seq::empty();
    assert(pair_views(entries@) =~= es);
    let mut i: usize = 1;
    if args.len() <= 1 {
        return Ok(());
    }
    while i < args.len()
        invariant
            a == crate::store::string_views(args@),
            a.len() == args@.len(),
            forall|k: int| 0 <= k < args@.len() ==> #[trigger] a[k] == args@[k]@,
            1 <= i <= args@.len(),
            store.wf(),
            store@ == old(store)@,
            spec_args(a, i as int) == Some(es),
            pair_views(entries@) == es,
        decreases args@.len() - i,
    {
        let arg = &args[i];
        let is_dir = text_is(arg, "--dir");
        let is_db = text_is(arg, "--dbfilename");
        let is_port = text_is(arg, "--port");
        let is_replica = text_is(arg, "--replicaof");
        let ghost before = es;
        let ghost before_entries = entries@;
        if is_dir || is_db || is_port || is_replica {
            if i + 1 >= args.len() {
                return Err(Abort);
            }
            let value = args[i + 1].clone();
            if is_dir {
                entries.push(("dir".to_owned(), value));
                proof { es = es.push(("dir"@, a[i + 1])); }
            } else if is_db {
                entries.push(("dbfilename".to_owned(), value));
                proof { es = es.push(("dbfilename"@, a[i + 1])); }
            } else if is_port {
                entries.push(("port".to_owned(), value));
                proof { es = es.push(("port"@, a[i + 1])); }
            } else {
                let (h, p) = match host_port(&value) {
                    Some(hp) => hp,
                    None => {
                        proof {
                            assert(spec_args(a, i + 1) is None);
                            lemma_args_abort_persists(a, i + 1, a.len() as int);
                        }
                        return Err(Abort);
                    },
                };
                proof {
                    es = es.push(("master_host"@, h@)).push(("master_port"@, p@));
                }
                entries.push(("master_host".to_owned(), h));
                entries.push(("master_port".to_owned(), p));
            }
        }
        proof {
            let e = spec_arg_entries(a, i as int).unwrap();
            assert(es =~= before + e);
            assert(pair_views(entries@) =~= es);
        }
        i = i + 1;
    }
    let ghost pre = store@;
    let total = entries.len();
    let mut pos: usize = 0;
    while pos < total
        invariant
            total == entries@.len(),
            pos <= total,
            store.wf(),
            pair_views(entries@) == es,
            store@ == apply_config(pre, es.take(pos as int)),
        decreases total - pos,
    {
        let key = entries[pos].0.clone();
        let value = entries[pos].1.clone();
        assert((key@, value@) == pair_views(entries@)[pos as int]);
        map_config_insert(store, key, value);
        assert(es.take(pos + 1).drop_last() =~= es.take(pos as int));
        pos = pos + 1;
    }
    assert(es.take(pos as int) =~= es);
    Ok(())
}

/// Whether `a` is one of the four flags.
pub open spec fn is_flag(a: Seq<char>) -> bool {
    a == "--dir"@ || a == "--dbfilename"@ || a == "--port"@ || a == "--replicaof"@
}

/// `--dir`, `--dbfilename` and `--port` each set the entry of the same
/// name to the argument after them, when that argument is not itself a flag.
pub proof fn theorem_flag_sets_entry(prog: Seq<char>, value: Seq<char>)
    requires
        !is_flag(value),
    ensures
        spec_args(seq![prog, "--dir"@, value], 3) == Some(seq![("dir"@, value)]),
        spec_args(seq![prog, "--dbfilename"@, value], 3) == Some(seq![("dbfilename"@, value)]),
        spec_args(seq![prog, "--port"@, value], 3) == Some(seq![("port"@, value)]),
{
    reveal_strlit("--dir");
    reveal_strlit("--dbfilename");
    reveal_strlit("--port");
    reveal_strlit("--replicaof");
    assert("--dir"@ != "--dbfilename"@ && "--dir"@ != "--port"@ && "--dbfilename"@ != "--port"@) by {
        assert("--dir"@.len() != "--dbfilename"@.len());
        assert("--dir"@.len() != "--port"@.len());
        assert("--dbfilename"@.len() != "--port"@.len());
    }
    let a1 = seq![prog, "--dir"@, value];
    let a2 = seq![prog, "--dbfilename"@, value];
    let a3 = seq![prog, "--port"@, value];
    assert(spec_args(a1, 1) == Some(Seq::<(Seq<char>, Seq<char>)>::empty()));
    assert(spec_args(a2, 1) == Some(Seq::<(Seq<char>, Seq<char>)>::empty()));
    assert(spec_args(a3, 1) == Some(Seq::<(Seq<char>, Seq<char>)>::empty()));
    assert(Seq::<(Seq<char>, Seq<char>)>::empty() + seq![("dir"@, value)] =~= seq![("dir"@, value)]);
    assert(Seq::<(Seq<char>, Seq<char>)>::empty() + seq![("dbfilename"@, value)] =~= seq![("dbfilename"@, value)]);
    assert(Seq::<(Seq<char>, Seq<char>)>::empty() + seq![("port"@, value)] =~= seq![("port"@, value)]);
    assert(spec_args(a1, 2) == Some(seq![("dir"@, value)]));
    assert(spec_args(a2, 2) == Some(seq![("dbfilename"@, value)]));
    assert(spec_args(a3, 2) == Some(seq![("port"@, value)]));
    assert(seq![("dir"@, value)] + Seq::<(Seq<char>, Seq<char>)>::empty() =~= seq![("dir"@, value)]);
    assert(seq![("dbfilename"@, value)] + Seq::<(Seq<char>, Seq<char>)>::empty() =~= seq![("dbfilename"@, value)]);
    assert(seq![("port"@, value)] + Seq::<(Seq<char>, Seq<char>)>::empty() =~= seq![("port"@, value)]);
}

/// `--replicaof "<host> <port>"`, with neither part holding a space, sets
/// `master_host` and `master_port`.
pub proof fn theorem_replicaof_sets_master(prog: Seq<char>, host: Seq<char>, port: Seq<char>)
    requires
        !host.contains(' '),
        !port.contains(' '),
        !is_flag(host.push(' ') + port),
    ensures
        spec_args(seq![prog, "--replicaof"@, host.push(' ') + port], 3) == Some(
            seq![("master_host"@, host), ("master_port"@, port)],
        ),
{
    reveal_strlit("--dir");
    reveal_strlit("--dbfilename");
    reveal_strlit("--port");
    reveal_strlit("--replicaof");
    let value = host.push(' ') + port;
    let args = seq![prog, "--replicaof"@, value];
    assert("--replicaof"@ != "--dir"@ && "--replicaof"@ != "--dbfilename"@ && "--replicaof"@ != "--port"@) by {
        assert("--replicaof"@.len() != "--dir"@.len());
        assert("--replicaof"@.len() != "--dbfilename"@.len());
        assert("--replicaof"@.len() != "--port"@.len());
    }
    search::lemma_first_index_of(value, ' ');
    assert forall|j: int| 0 <= j < host.len() implies value[j] != ' ' by {
        assert(value[j] == host[j]);
        if host[j] == ' ' {
            assert(host.contains(' '));
        }
    }
    assert(value[host.len() as int] == ' ');
    assert(search::first_index_of(value, ' ') == Some(host.len() as int));
    assert(value.take(host.len() as int) =~= host);
    assert(value.skip(host.len() as int + 1) =~= port);
    search::lemma_first_index_of(port, ' ');
    if let Some(q) = search::first_index_of(port, ' ') {
        assert(port.contains(' '));
    }
    let pair = seq![("master_host"@, host), ("master_port"@, port)];
    assert(Seq::<(Seq<char>, Seq<char>)>::empty() + pair =~= pair);
    assert(spec_args(args, 1) == Some(Seq::<(Seq<char>, Seq<char>)>::empty()));
    assert(spec_host_port(value) == Some((host, port)));
    assert(spec_args(args, 2) == Some(pair));
    assert(pair + Seq::<(Seq<char>, Seq<char>)>::empty() =~= pair);
}

/// The four flag names are distinct texts.
proof fn lemma_flag_names()
    ensures
        "--dir"@ != "--dbfilename"@,
        "--dir"@ != "--port"@,
        "--dir"@ != "--replicaof"@,
        "--dbfilename"@ != "--port"@,
        "--dbfilename"@ != "--replicaof"@,
        "--port"@ != "--replicaof"@,
{
    reveal_strlit("--dir");
    reveal_strlit("--dbfilename");
    reveal_strlit("--port");
    reveal_strlit("--replicaof");
    assert("--dir"@.len() != "--dbfilename"@.len());
    assert("--dir"@.len() != "--port"@.len());
    assert("--dir"@.len() != "--replicaof"@.len());
    assert("--dbfilename"@.len() != "--port"@.len());
    assert("--dbfilename"@.len() != "--replicaof"@.len());
    assert("--port"@.len() != "--replicaof"@.len());
}

/// `host port` with neither part holding a space splits into the two.
proof fn lemma_host_port(host: Seq<char>, port: Seq<char>)
    requires
        !host.contains(' '),
        !port.contains(' '),
    ensures
        spec_host_port(host.push(' ') + port) == Some((host, port)),
{
    let value = host.push(' ') + port;
    search::lemma_first_index_of(value, ' ');
    assert forall|j: int| 0 <= j < host.len() implies value[j] != ' ' by {
        assert(value[j] == host[j]);
        if host[j] == ' ' {
            assert(host.contains(' '));
        }
    }
    assert(value[host.len() as int] == ' ');
    assert(search::first_index_of(value, ' ') == Some(host.len() as int));
    assert(value.take(host.len() as int) =~= host);
    assert(value.skip(host.len() as int + 1) =~= port);
    search::lemma_first_index_of(port, ' ');
    if let Some(q) = search::first_index_of(port, ' ') {
        assert(port.contains(' '));
    }
}

/// A flag that takes one value as its entry's text.
pub open spec fn is_simple_flag(f: Seq<char>) -> bool {
    f == "--dir"@ || f == "--dbfilename"@ || f == "--port"@
}

/// The configuration entry that a simple flag sets.
pub open spec fn entry_name(f: Seq<char>) -> Seq<char> {
    if f == "--dir"@ {
        "dir"@
    } else if f == "--dbfilename"@ {
        "dbfilename"@
    } else {
        "port"@
    }
}

/// The entries of a command line of five arguments: those of argument 1
/// and then those of argument 3, given arguments 2 and 4 are not flags.
proof fn lemma_five_args(args: Seq<Seq<char>>)
    requires
        args.len() == 5,
        !is_flag(args[2]),
        !is_flag(args[4]),
        spec_arg_entries(args, 1) is Some,
        spec_arg_entries(args, 3) is Some,
    ensures
        spec_args(args, 5) == Some(
            spec_arg_entries(args, 1).unwrap() + spec_arg_entries(args, 3).unwrap(),
        ),
{
    let e1 = spec_arg_entries(args, 1).unwrap();
    let e3 = spec_arg_entries(args, 3).unwrap();
    let none = Seq::<(Seq<char>, Seq<char>)>::empty();
    assert(spec_arg_entries(args, 2) == Some(none));
    assert(spec_arg_entries(args, 4) == Some(none));
    assert(spec_args(args, 1) == Some(none));
    assert(none + e1 =~= e1);
    assert(spec_args(args, 2) == Some(e1));
    assert(e1 + none =~= e1);
    assert(spec_args(args, 3) == Some(e1));
    assert(spec_args(args, 4) == Some(e1 + e3));
    assert((e1 + e3) + none =~= e1 + e3);
}

/// Two simple flags, each with a value that is not a flag, set their two
/// entries in order, whichever flags they are.
pub proof fn theorem_two_flags(prog: Seq<char>, f1: Seq<char>, x1: Seq<char>, f2: Seq<char>, x2: Seq<char>)
    requires
        is_simple_flag(f1),
        is_simple_flag(f2),
        !is_flag(x1),
        !is_flag(x2),
    ensures
        spec_args(seq![prog, f1, x1, f2, x2], 5) == Some(
            seq![(entry_name(f1), x1), (entry_name(f2), x2)],
        ),
{
    lemma_flag_names();
    let args = seq![prog, f1, x1, f2, x2];
    assert(spec_arg_entries(args, 1) == Some(seq![(entry_name(f1), x1)]));
    assert(spec_arg_entries(args, 3) == Some(seq![(entry_name(f2), x2)]));
    lemma_five_args(args);
    assert(seq![(entry_name(f1), x1)] + seq![(entry_name(f2), x2)] =~= seq![
        (entry_name(f1), x1),
        (entry_name(f2), x2),
    ]);
}

/// `--replicaof "<host> <port>"` followed by a simple flag sets the master
/// and then that flag's entry: a flag after `--replicaof` is not dropped.
pub proof fn theorem_replicaof_then_flag(
    prog: Seq<char>,
    host: Seq<char>,
    port: Seq<char>,
    f2: Seq<char>,
    x2: Seq<char>,
)
    requires
        !host.contains(' '),
        !port.contains(' '),
        !is_flag(host.push(' ') + port),
        is_simple_flag(f2),
        !is_flag(x2),
    ensures
        spec_args(seq![prog, "--replicaof"@, host.push(' ') + port, f2, x2], 5) == Some(
            seq![("master_host"@, host), ("master_port"@, port), (entry_name(f2), x2)],
        ),
{
    lemma_flag_names();
    lemma_host_port(host, port);
    let args = seq![prog, "--replicaof"@, host.push(' ') + port, f2, x2];
    let m = seq![("master_host"@, host), ("master_port"@, port)];
    assert(spec_arg_entries(args, 1) == Some(m));
    assert(spec_arg_entries(args, 3) == Some(seq![(entry_name(f2), x2)]));
    lemma_five_args(args);
    assert(m + seq![(entry_name(f2), x2)] =~= seq![
        ("master_host"@, host),
        ("master_port"@, port),
        (entry_name(f2), x2),
    ]);
}

/// A simple flag followed by `--replicaof "<host> <port>"` sets that
/// flag's entry and then the master.
pub proof fn theorem_flag_then_replicaof(
    prog: Seq<char>,
    f1: Seq<char>,
    x1: Seq<char>,
    host: Seq<char>,
    port: Seq<char>,
)
    requires
        is_simple_flag(f1),
        !is_flag(x1),
        !host.contains(' '),
        !port.contains(' '),
        !is_flag(host.push(' ') + port),
    ensures
        spec_args(seq![prog, f1, x1, "--replicaof"@, host.push(' ') + port], 5) == Some(
            seq![(entry_name(f1), x1), ("master_host"@, host), ("master_port"@, port)],
        ),
{
    lemma_flag_names();
    lemma_host_port(host, port);
    let args = seq![prog, f1, x1, "--replicaof"@, host.push(' ') + port];
    let m = seq![("master_host"@, host), ("master_port"@, port)];
    assert(spec_arg_entries(args, 1) == Some(seq![(entry_name(f1), x1)]));
    assert(spec_arg_entries(args, 3) == Some(m));
    lemma_five_args(args);
    assert(seq![(entry_name(f1), x1)] + m =~= seq![
        (entry_name(f1), x1),
        ("master_host"@, host),
        ("master_port"@, port),
    ]);
}

} // verus!
