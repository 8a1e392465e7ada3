//! The command lines that start the other side of a sync: over SSH for a
//! remote database, or this program again for two local ones.

use vstd::prelude::*;
use crate::shell::{
    append_escaped_arg_on, as_file_arg, lemma_sh_reads_with_arg, sh_reads_as, sh_safe_arg,
    with_arg, with_arg_on, Platform,
};
use crate::numbers::{append_decimal, decimal};
use crate::text::opt_view;

verus! {

/// The argument that widens `PATH` on the remote side, for hosts whose
/// non-interactive shells do not find the program.
pub open spec fn path_argument() -> Seq<char> {
    "PATH=$HOME/bin:/usr/local/bin:/opt/homebrew/bin:/opt/local/bin:$PATH"@
}

/// Appends the argument that widens `PATH` on the remote side.
pub fn add_path_argument(s: &mut String, platform: Platform)
    ensures
        final(s)@ == with_arg_on(old(s)@, path_argument(), false, platform),
{
    append_escaped_arg_on(
        s,
        "PATH=$HOME/bin:/usr/local/bin:/opt/homebrew/bin:/opt/local/bin:$PATH",
        false,
        platform,
    );
}

/// ` -p PORT` where a port is given.
pub open spec fn port_option(port: int) -> Seq<char> {
    if port > 0 {
        seq![' ', '-', 'p', ' '] + decimal(port as nat)
    } else {
        Seq::empty()
    }
}

/// The SSH part of a remote command line: the SSH program, its port, no
/// escape character, the host, and on a retry the `PATH=` argument.
pub open spec fn ssh_prefix(
    s: Seq<char>,
    ssh: Seq<char>,
    port: int,
    host: Seq<char>,
    retry: bool,
    platform: Platform,
) -> Seq<char> {
    let s1 = with_arg_on(s, ssh, true, platform) + port_option(port) + seq![
        ' ',
        '-',
        'e',
        ' ',
        'n',
        'o',
        'n',
        'e',
    ];
    let s2 = with_arg_on(s1, host, false, platform);
    if retry {
        with_arg_on(s2, path_argument(), false, platform)
    } else {
        s2
    }
}

/// Appends the SSH part of a remote command line to `cmd`.
pub fn build_ssh_prefix(
    cmd: &mut String,
    z_ssh: &str,
    i_port: i32,
    host: &str,
    retry: bool,
    platform: Platform,
)
    ensures
        final(cmd)@ == ssh_prefix(old(cmd)@, z_ssh@, i_port as int, host@, retry, platform),
{
    let ghost s0 = cmd@;
    append_escaped_arg_on(cmd, z_ssh, true, platform);
    let ghost s1 = cmd@;
    if i_port > 0 {
        cmd.append(" -p ");
        proof {
            reveal_strlit(" -p ");
        }
        append_decimal(cmd, i_port as u32);
    }
    assert(cmd@ =~= s1 + port_option(i_port as int));
    cmd.append(" -e none");
    proof {
        reveal_strlit(" -e none");
    }
    let ghost s2 = cmd@;
    assert(s2 =~= with_arg_on(s0, z_ssh@, true, platform) + port_option(i_port as int) + seq![
        ' ',
        '-',
        'e',
        ' ',
        'n',
        'o',
        'n',
        'e',
    ]);
    append_escaped_arg_on(cmd, host, false, platform);
    if retry {
        add_path_argument(cmd, platform);
    }
}

/// `s` with the option `flag` and the file after it, where there is one.
pub open spec fn with_file_opt(
    s: Seq<char>,
    flag: Seq<char>,
    file: Option<Seq<char>>,
    platform: Platform,
) -> Seq<char> {
    match file {
        Some(f) => with_arg_on(with_arg_on(s, flag, false, platform), f, true, platform),
        None => s,
    }
}

/// The options that the other side is started with: `--commcheck`, its error
/// and debug files, and `--wal-only`.
pub open spec fn file_opts(
    s: Seq<char>,
    err_file: Option<Seq<char>>,
    debug_file: Option<Seq<char>>,
    wal_only: bool,
    comm_check: bool,
    platform: Platform,
) -> Seq<char> {
    let s1 = if comm_check {
        with_arg_on(s, "--commcheck"@, false, platform)
    } else {
        s
    };
    let s2 = with_file_opt(s1, "--errorfile"@, err_file, platform);
    let s3 = with_file_opt(s2, "--debugfile"@, debug_file, platform);
    if wal_only {
        with_arg_on(s3, "--wal-only"@, false, platform)
    } else {
        s3
    }
}

/// The verbosity once `--commcheck` is asked for: at least 1.
pub open spec fn verbosity_with(verbose: u8, comm_check: bool) -> u8 {
    if comm_check && verbose == 0 {
        1
    } else {
        verbose
    }
}

/// Appends the options that the other side is started with; `--commcheck`
/// raises the verbosity to at least 1.
pub fn append_file_opts(
    cmd: &mut String,
    err_file: &Option<String>,
    debug_file: &Option<String>,
    wal_only: bool,
    b_comm_check: bool,
    verbose: &mut u8,
    platform: Platform,
)
    ensures
        final(cmd)@ == file_opts(
            old(cmd)@,
            opt_view(*err_file),
            opt_view(*debug_file),
            wal_only,
            b_comm_check,
            platform,
        ),
        *final(verbose) == verbosity_with(*old(verbose), b_comm_check),
{
    if b_comm_check {
        append_escaped_arg_on(cmd, "--commcheck", false, platform);
        if *verbose == 0 {
            *verbose = 1;
        }
    }
    match err_file {
        Some(f) => {
            append_escaped_arg_on(cmd, "--errorfile", false, platform);
            append_escaped_arg_on(cmd, f.as_str(), true, platform);
        },
        None => {},
    }
    match debug_file {
        Some(f) => {
            append_escaped_arg_on(cmd, "--debugfile", false, platform);
            append_escaped_arg_on(cmd, f.as_str(), true, platform);
        },
        None => {},
    }
    if wal_only {
        append_escaped_arg_on(cmd, "--wal-only", false, platform);
    }
}

/// The option words are legal shell arguments that `sh` reads back as they
/// are.
pub proof fn lemma_option_words_safe()
    ensures
        sh_safe_arg("--commcheck"@),
        sh_safe_arg("--errorfile"@),
        sh_safe_arg("--debugfile"@),
        sh_safe_arg("--wal-only"@),
        sh_safe_arg(path_argument()),
{
    reveal(sh_safe_arg);
    reveal_strlit("--commcheck");
    reveal_strlit("--errorfile");
    reveal_strlit("--debugfile");
    reveal_strlit("--wal-only");
    reveal_strlit("PATH=$HOME/bin:/usr/local/bin:/opt/homebrew/bin:/opt/local/bin:$PATH");
}

/// An optional argument that is absent, or that `sh` reads back.
pub open spec fn opt_safe(o: Option<Seq<char>>) -> bool {
    match o {
        Some(x) => sh_safe_arg(x),
        None => true,
    }
}

/// An option followed by a file name, where there is a file.
pub open spec fn flag_and_file(flag: Seq<char>, file: Option<Seq<char>>) -> Seq<Seq<char>> {
    match file {
        Some(f) => seq![flag, as_file_arg(f, true)],
        None => Seq::empty(),
    }
}

/// The arguments that the started program receives for its options, in
/// order: `--commcheck` where asked for, `--errorfile FILE`, `--debugfile
/// FILE`, and `--wal-only` where asked for.
pub open spec fn option_args(
    err_file: Option<Seq<char>>,
    debug_file: Option<Seq<char>>,
    wal_only: bool,
    comm_check: bool,
) -> Seq<Seq<char>> {
    (if comm_check {
        seq!["--commcheck"@]
    } else {
        Seq::empty()
    }) + flag_and_file("--errorfile"@, err_file) + flag_and_file("--debugfile"@, debug_file) + (
    if wal_only {
        seq!["--wal-only"@]
    } else {
        Seq::empty()
    })
}

/// The options appended for a POSIX shell reach the started program as
/// `option_args` says: each option asked for, each file after its option.
pub proof fn lemma_file_opts_read(
    s: Seq<char>,
    args: Seq<Seq<char>>,
    err_file: Option<Seq<char>>,
    debug_file: Option<Seq<char>>,
    wal_only: bool,
    comm_check: bool,
)
    requires
        sh_reads_as(s, args),
        opt_safe(err_file),
        opt_safe(debug_file),
    ensures
        sh_reads_as(
            file_opts(s, err_file, debug_file, wal_only, comm_check, Platform::Posix),
            args + option_args(err_file, debug_file, wal_only, comm_check),
        ),
{
    lemma_option_words_safe();
    let empty = Seq::<Seq<char>>::empty();
    let a1 = if comm_check {
        seq!["--commcheck"@]
    } else {
        empty
    };
    let s1 = if comm_check {
        with_arg_on(s, "--commcheck"@, false, Platform::Posix)
    } else {
        s
    };
    if comm_check {
        lemma_sh_reads_with_arg(s, args, "--commcheck"@, false);
        assert(args.push("--commcheck"@) =~= args + a1);
    } else {
        assert(args + a1 =~= args);
    }
    let b = flag_and_file("--errorfile"@, err_file);
    let s2 = with_file_opt(s1, "--errorfile"@, err_file, Platform::Posix);
    match err_file {
        Some(f) => {
            lemma_sh_reads_with_arg(s1, args + a1, "--errorfile"@, false);
            let t = with_arg_on(s1, "--errorfile"@, false, Platform::Posix);
            lemma_sh_reads_with_arg(t, (args + a1).push("--errorfile"@), f, true);
            assert((args + a1).push("--errorfile"@).push(as_file_arg(f, true)) =~= args + a1 + b);
        },
        None => {
            assert(args + a1 + b =~= args + a1);
        },
    }
    let c = flag_and_file("--debugfile"@, debug_file);
    let s3 = with_file_opt(s2, "--debugfile"@, debug_file, Platform::Posix);
    match debug_file {
        Some(f) => {
            lemma_sh_reads_with_arg(s2, args + a1 + b, "--debugfile"@, false);
            let t = with_arg_on(s2, "--debugfile"@, false, Platform::Posix);
            lemma_sh_reads_with_arg(t, (args + a1 + b).push("--debugfile"@), f, true);
            assert((args + a1 + b).push("--debugfile"@).push(as_file_arg(f, true)) =~= args + a1
                + b + c);
        },
        None => {
            assert(args + a1 + b + c =~= args + a1 + b);
        },
    }
    let d = if wal_only {
        seq!["--wal-only"@]
    } else {
        empty
    };
    if wal_only {
        lemma_sh_reads_with_arg(s3, args + a1 + b + c, "--wal-only"@, false);
        assert((args + a1 + b + c).push("--wal-only"@) =~= args + a1 + b + c + d);
    } else {
        assert(args + a1 + b + c + d =~= args + a1 + b + c);
    }
    assert(args + option_args(err_file, debug_file, wal_only, comm_check) =~= args + a1 + b + c + d);
}

/// Appending an argument keeps what the command line held.
pub proof fn lemma_with_arg_on_extends(s: Seq<char>, z: Seq<char>, is_filename: bool, platform: Platform)
    ensures
        s.is_prefix_of(with_arg_on(s, z, is_filename, platform)),
{
    reveal(with_arg);
    reveal(with_arg_on);
    let r = with_arg_on(s, z, is_filename, platform);
    assert(r.subrange(0, s.len() as int) =~= s);
}

/// A prefix of a prefix is a prefix.
pub proof fn lemma_prefix_trans(a: Seq<char>, b: Seq<char>, c: Seq<char>)
    requires
        a.is_prefix_of(b),
        b.is_prefix_of(c),
    ensures
        a.is_prefix_of(c),
{
    assert(c.subrange(0, a.len() as int) =~= b.subrange(0, a.len() as int));
}

/// Appending the options keeps what the command line held.
pub proof fn lemma_file_opts_extends(
    s: Seq<char>,
    err_file: Option<Seq<char>>,
    debug_file: Option<Seq<char>>,
    wal_only: bool,
    comm_check: bool,
    platform: Platform,
)
    ensures
        s.is_prefix_of(file_opts(s, err_file, debug_file, wal_only, comm_check, platform)),
{
    let s1 = if comm_check {
        with_arg_on(s, "--commcheck"@, false, platform)
    } else {
        s
    };
    lemma_with_arg_on_extends(s, "--commcheck"@, false, platform);
    assert(s.is_prefix_of(s1));
    let s2 = with_file_opt(s1, "--errorfile"@, err_file, platform);
    match err_file {
        Some(f) => {
            let t = with_arg_on(s1, "--errorfile"@, false, platform);
            lemma_with_arg_on_extends(s1, "--errorfile"@, false, platform);
            lemma_with_arg_on_extends(t, f, true, platform);
            lemma_prefix_trans(s1, t, s2);
        },
        None => {
            assert(s1.is_prefix_of(s2));
        },
    }
    lemma_prefix_trans(s, s1, s2);
    let s3 = with_file_opt(s2, "--debugfile"@, debug_file, platform);
    match debug_file {
        Some(f) => {
            let t = with_arg_on(s2, "--debugfile"@, false, platform);
            lemma_with_arg_on_extends(s2, "--debugfile"@, false, platform);
            lemma_with_arg_on_extends(t, f, true, platform);
            lemma_prefix_trans(s2, t, s3);
        },
        None => {
            assert(s2.is_prefix_of(s3));
        },
    }
    lemma_prefix_trans(s, s2, s3);
    lemma_with_arg_on_extends(s3, "--wal-only"@, false, platform);
    let s4 = file_opts(s, err_file, debug_file, wal_only, comm_check, platform);
    assert(s3.is_prefix_of(s4));
    lemma_prefix_trans(s, s3, s4);
}

/// The SSH part of a command line, on any platform, begins with the SSH
/// program and then, where a port is given, `-p` and the port.
pub proof fn lemma_ssh_prefix_port(
    ssh: Seq<char>,
    port: int,
    host: Seq<char>,
    retry: bool,
    platform: Platform,
)
    requires
        port > 0,
    ensures
        (with_arg_on(Seq::empty(), ssh, true, platform) + seq![' ', '-', 'p', ' '] + decimal(
            port as nat,
        )).is_prefix_of(ssh_prefix(Seq::empty(), ssh, port, host, retry, platform)),
{
    let s1 = with_arg_on(Seq::empty(), ssh, true, platform);
    let p = s1 + seq![' ', '-', 'p', ' '] + decimal(port as nat);
    let s_none = s1 + port_option(port) + seq![' ', '-', 'e', ' ', 'n', 'o', 'n', 'e'];
    assert(s_none.subrange(0, p.len() as int) =~= p);
    let s2 = with_arg_on(s_none, host, false, platform);
    lemma_with_arg_on_extends(s_none, host, false, platform);
    lemma_prefix_trans(p, s_none, s2);
    lemma_with_arg_on_extends(s2, path_argument(), false, platform);
    let r = ssh_prefix(Seq::empty(), ssh, port, host, retry, platform);
    assert(s2.is_prefix_of(r));
    lemma_prefix_trans(p, s2, r);
}

} // verus!
