//! Command-line argument handling and report wording for the command-line
//! front end.
use vstd::prelude::*;
use crate::api::{hex_chars, hex_lower};
use crate::cluster::burst::DEFAULT_BURST_GAP_SECS;
use crate::cluster::near::{DEFAULT_DHASH_MAX, DEFAULT_PHASH_MAX};
use crate::decimal::{
    float_syntax, is_float_text, parse_i64_bytes, parse_signed, parse_unsigned, parse_unsigned_bytes,
};
use vstd::utf8::encode_utf8;
use crate::text::{concat, str_eq};

verus! {

/// Search results shown when no `--limit` is given.
pub const DEFAULT_SEARCH_LIMIT: usize = 12;

/// The texts of the arguments.
pub open spec fn arg_texts(args: Seq<String>) -> Seq<Seq<char>> {
    args.map_values(|a: String| a@)
}

/// Position of the first argument equal to `flag`, or -1.
pub open spec fn first_index_of(args: Seq<Seq<char>>, flag: Seq<char>) -> int
    decreases args.len(),
{
    if args.len() == 0 {
        -1
    } else {
        let p = first_index_of(args.drop_last(), flag);
        if p >= 0 {
            p
        } else if args.last() == flag {
            args.len() - 1
        } else {
            -1
        }
    }
}

proof fn lemma_first_index(args: Seq<Seq<char>>, flag: Seq<char>)
    ensures
        -1 <= first_index_of(args, flag) < args.len(),
        first_index_of(args, flag) >= 0 ==> args[first_index_of(args, flag)] == flag,
        forall|k: int| 0 <= k < args.len() && (first_index_of(args, flag) < 0 || k < first_index_of(args, flag))
            ==> args[k] != flag,
    decreases args.len(),
{
    if args.len() > 0 {
        lemma_first_index(args.drop_last(), flag);
        let p = first_index_of(args.drop_last(), flag);
        assert forall|k: int| 0 <= k < args.len() && (first_index_of(args, flag) < 0 || k < first_index_of(args, flag))
            implies args[k] != flag by {
            if k < args.len() - 1 {
                assert(args.drop_last()[k] == args[k]);
            }
        }
    }
}

/// Takes `flag` and the path after it out of `args`. `Ok(None)` when the
/// flag is absent; `Err` (arguments unchanged) when it is last.
pub fn take_path_flag(args: &mut Vec<String>, flag: &str) -> (r: Result<Option<String>, String>)
    ensures
        ({
            let t = arg_texts(old(args)@);
            let i = first_index_of(t, flag@);
            &&& i < 0 ==> r == Ok::<Option<String>, String>(None) && final(args)@ == old(args)@
            &&& 0 <= i && i + 1 < t.len() ==> (r matches Ok(Some(p)) && p@ == t[i + 1])
                && final(args)@ == old(args)@.remove(i).remove(i)
            &&& 0 <= i && i + 1 == t.len() ==> (r matches Err(m) && m@ == flag@ + " needs a path"@)
                && final(args)@ == old(args)@
        }),
{
    let ghost t = arg_texts(args@);
    let ghost orig = args@;
    proof {
        lemma_first_index(t, flag@);
    }
    let mut i: usize = 0;
    while i < args.len()
        invariant
            args@ == orig,
            orig == old(args)@,
            i <= args@.len(),
            t == arg_texts(args@),
            forall|k: int| 0 <= k < i ==> t[k] != flag@,
            -1 <= first_index_of(t, flag@) < t.len(),
            first_index_of(t, flag@) >= 0 ==> t[first_index_of(t, flag@)] == flag@,
            forall|k: int| 0 <= k < t.len() && (first_index_of(t, flag@) < 0 || k < first_index_of(t, flag@))
                ==> t[k] != flag@,
        decreases args@.len() - i,
    {
        if str_eq(args[i].as_str(), flag) {
            assert(t[i as int] == flag@);
            assert(first_index_of(t, flag@) == i);
            if i + 1 < args.len() {
                args.remove(i);
                let p = args.remove(i);
                proof {
                    assert(p == orig[i + 1]);
                }
                return Ok(Some(p));
            } else {
                proof {
                    reveal_strlit(" needs a path");
                }
                return Err(concat(flag, " needs a path"));
            }
        }
        i += 1;
    }
    assert(first_index_of(t, flag@) < 0);
    Ok(None)
}

/// Takes `--db <path>` out of `args`.
pub fn take_db_flag(args: &mut Vec<String>) -> (r: Result<Option<String>, String>)
    ensures
        ({
            let t = arg_texts(old(args)@);
            let i = first_index_of(t, "--db"@);
            &&& i < 0 ==> r == Ok::<Option<String>, String>(None) && final(args)@ == old(args)@
            &&& 0 <= i && i + 1 < t.len() ==> (r matches Ok(Some(p)) && p@ == t[i + 1])
                && final(args)@ == old(args)@.remove(i).remove(i)
            &&& 0 <= i && i + 1 == t.len() ==> (r matches Err(m) && m@ == "--db"@ + " needs a path"@)
                && final(args)@ == old(args)@
        }),
{
    take_path_flag(args, "--db")
}

/// Parses the `search` command's options: none (the default limit) or
/// `--limit <n>`.
pub fn parse_limit(args: &[String]) -> (r: Result<usize, String>)
    ensures
        args@.len() == 0 ==> r == Ok::<usize, String>(DEFAULT_SEARCH_LIMIT),
        args@.len() == 2 && args@[0]@ == "--limit"@ ==> match parse_unsigned(vstd::utf8::encode_utf8(args@[1]@)) {
            Some(v) => if v <= usize::MAX {
                r == Ok::<usize, String>(v as usize)
            } else {
                (r matches Err(m) && m@ == "--limit: not a number: "@ + args@[1]@)
            },
            None => (r matches Err(m) && m@ == "--limit: not a number: "@ + args@[1]@),
        },
        !(args@.len() == 0) && !(args@.len() == 2 && args@[0]@ == "--limit"@) ==> (r matches Err(m) && m@
            == "search accepts only --limit <n>"@),
{
    proof {
        reveal_strlit("--limit");
    }
    if args.len() == 0 {
        return Ok(DEFAULT_SEARCH_LIMIT);
    }
    if args.len() == 2 && str_eq(args[0].as_str(), "--limit") {
        let value = args[1].as_str();
        match parse_unsigned_bytes(value.as_bytes(), usize::MAX as u64) {
            Some(v) => Ok(v as usize),
            None => Err(concat("--limit: not a number: ", value)),
        }
    } else {
        Err("search accepts only --limit <n>".to_owned())
    }
}

/// The plural suffix for a count.
pub fn plural(n: usize) -> (s: &'static str)
    ensures
        n == 1 ==> s@ == ""@,
        n != 1 ==> s@ == "s"@,
{
    if n == 1 {
        ""
    } else {
        "s"
    }
}

/// The first six bytes of a content hash in lowercase hex.
pub fn hex_prefix(hash: &[u8; 32]) -> (s: String)
    ensures
        s@ == hex_chars(hash@.take(6)),
{
    let mut head: Vec<u8> = Vec::new();
    let mut i: usize = 0;
    while i < 6
        invariant
            i <= 6,
            hash@.len() == 32,
            head@ == hash@.take(i as int),
        decreases 6 - i,
    {
        head.push(hash[i]);
        i += 1;
        proof {
            assert(head@ =~= hash@.take(i as int));
        }
    }
    hex_lower(head.as_slice())
}

/// What the `clusters` command rebuilds.
#[derive(Debug, Clone, PartialEq, Eq)]
pub enum ClusterRun {
    Near { dhash_max: u32, phash_max: u32 },
    /// `min_cosine` is the text given to `--cos` (a number by the float
    /// grammar), `None` for the default.
    Burst { gap_secs: i64, min_cosine: Option<String> },
}

/// The `clusters` options read so far: burst kind, dHash and pHash
/// bounds, burst gap, and the `--cos` text.
pub type ClusterFlags = (bool, u32, u32, i64, Option<Seq<char>>);

/// The options before any flag is read.
pub open spec fn default_cluster_flags() -> ClusterFlags {
    (false, DEFAULT_DHASH_MAX, DEFAULT_PHASH_MAX, DEFAULT_BURST_GAP_SECS, None)
}

/// Reads the `clusters` flags from position `i` on, each with the value
/// that follows it: the options, or the message for the first bad flag.
pub open spec fn cluster_flags(args: Seq<Seq<char>>, i: int, st: ClusterFlags) -> Result<ClusterFlags, Seq<char>>
    decreases args.len() - i,
{
    if i >= args.len() || i < 0 {
        Ok(st)
    } else {
        let flag = args[i];
        if !(flag == "--kind"@ || flag == "--dhash"@ || flag == "--phash"@ || flag == "--gap"@ || flag == "--cos"@) {
            Err("unknown clusters flag: "@ + flag)
        } else if i + 1 >= args.len() {
            Err(flag + " needs a value"@)
        } else {
            let v = args[i + 1];
            let bytes = encode_utf8(v);
            if flag == "--kind"@ {
                if v == "near"@ || v == "burst"@ {
                    cluster_flags(args, i + 2, (v == "burst"@, st.1, st.2, st.3, st.4))
                } else {
                    Err("unsupported cluster kind: "@ + v + " (near or burst)"@)
                }
            } else if flag == "--dhash"@ {
                if parse_unsigned(bytes) is Some && parse_unsigned(bytes)->0 <= u32::MAX {
                    cluster_flags(args, i + 2, (st.0, parse_unsigned(bytes)->0 as u32, st.2, st.3, st.4))
                } else {
                    Err("--dhash: not a number"@)
                }
            } else if flag == "--phash"@ {
                if parse_unsigned(bytes) is Some && parse_unsigned(bytes)->0 <= u32::MAX {
                    cluster_flags(args, i + 2, (st.0, st.1, parse_unsigned(bytes)->0 as u32, st.3, st.4))
                } else {
                    Err("--phash: not a number"@)
                }
            } else if flag == "--gap"@ {
                if parse_signed(bytes) is Some && i64::MIN <= parse_signed(bytes)->0 <= i64::MAX {
                    cluster_flags(args, i + 2, (st.0, st.1, st.2, parse_signed(bytes)->0 as i64, st.4))
                } else {
                    Err("--gap: not a number"@)
                }
            } else {
                if float_syntax(bytes) {
                    cluster_flags(args, i + 2, (st.0, st.1, st.2, st.3, Some(v)))
                } else {
                    Err("--cos: not a number"@)
                }
            }
        }
    }
}

/// The outcome of the `clusters` command's options.
pub open spec fn cluster_run_spec(args: Seq<Seq<char>>) -> Result<ClusterFlags, Seq<char>> {
    match cluster_flags(args, 0, default_cluster_flags()) {
        Ok(st) => if st.1 > 64 || st.2 > 64 {
            Err("hash distances are at most 64"@)
        } else {
            Ok(st)
        },
        Err(m) => Err(m),
    }
}

/// Parses the `clusters` command's options: `--kind near|burst`,
/// `--dhash <n>`, `--phash <n>`, `--gap <secs>`, `--cos <min>`.
pub fn parse_cluster_args(args: &[String]) -> (r: Result<ClusterRun, String>)
    ensures
        match cluster_run_spec(arg_texts(args@)) {
            Err(m) => r matches Err(e) && e@ == m,
            Ok(st) => if st.0 {
                r matches Ok(ClusterRun::Burst { gap_secs, min_cosine }) && gap_secs == st.3 && match (
                    min_cosine,
                    st.4,
                ) {
                    (Some(a), Some(b)) => a@ == b,
                    (None, None) => true,
                    _ => false,
                }
            } else {
                r == Ok::<ClusterRun, String>(ClusterRun::Near { dhash_max: st.1, phash_max: st.2 })
            },
        },
{
    let ghost t = arg_texts(args@);
    let mut burst = false;
    let mut dhash_max: u32 = DEFAULT_DHASH_MAX;
    let mut phash_max: u32 = DEFAULT_PHASH_MAX;
    let mut gap_secs: i64 = DEFAULT_BURST_GAP_SECS;
    let mut min_cosine: Option<String> = None;
    let mut i: usize = 0;
    while i < args.len()
        invariant
            t == arg_texts(args@),
            i <= args@.len(),
            cluster_flags(t, 0, default_cluster_flags()) == cluster_flags(
                t,
                i as int,
                (burst, dhash_max, phash_max, gap_secs, match min_cosine {
                    Some(c) => Some(c@),
                    None => None,
                }),
            ),
        decreases args@.len() - i,
    {
        let flag = args[i].as_str();
        let known = str_eq(flag, "--kind") || str_eq(flag, "--dhash") || str_eq(flag, "--phash") || str_eq(
            flag,
            "--gap",
        ) || str_eq(flag, "--cos");
        if !known {
            return Err(concat("unknown clusters flag: ", flag));
        }
        if i + 1 >= args.len() {
            return Err(concat(flag, " needs a value"));
        }
        let v = args[i + 1].as_str();
        if str_eq(flag, "--kind") {
            let is_burst = str_eq(v, "burst");
            if str_eq(v, "near") || is_burst {
                burst = is_burst;
            } else {
                let head = concat("unsupported cluster kind: ", v);
                return Err(concat(head.as_str(), " (near or burst)"));
            }
        } else if str_eq(flag, "--dhash") {
            match parse_unsigned_bytes(v.as_bytes(), 4294967295u64) {
                Some(n) => dhash_max = n as u32,
                None => return Err("--dhash: not a number".to_owned()),
            }
        } else if str_eq(flag, "--phash") {
            match parse_unsigned_bytes(v.as_bytes(), 4294967295u64) {
                Some(n) => phash_max = n as u32,
                None => return Err("--phash: not a number".to_owned()),
            }
        } else if str_eq(flag, "--gap") {
            match parse_i64_bytes(v.as_bytes()) {
                Some(n) => gap_secs = n,
                None => return Err("--gap: not a number".to_owned()),
            }
        } else {
            if is_float_text(v.as_bytes()) {
                min_cosine = Some(v.to_owned());
            } else {
                return Err("--cos: not a number".to_owned());
            }
        }
        i += 2;
    }
    if dhash_max > 64 || phash_max > 64 {
        return Err("hash distances are at most 64".to_owned());
    }
    if burst {
        Ok(ClusterRun::Burst { gap_secs, min_cosine })
    } else {
        Ok(ClusterRun::Near { dhash_max, phash_max })
    }
}

} // verus!
