//! What the program is started with, and which servers it starts.

use crate::config::Config;
use crate::text;
use crate::vless::tls::reality::texts;
use vstd::prelude::*;

verus! {

/// What follows the first `-c` among the arguments from the one numbered `i`
/// on.
pub open spec fn after_flag(args: Seq<Seq<char>>, i: int) -> Option<Seq<char>>
    decreases args.len() - i,
{
    if i + 1 >= args.len() {
        None
    } else if args[i] == "-c"@ {
        Some(args[i + 1])
    } else {
        after_flag(args, i + 1)
    }
}

/// The first among the arguments from the one numbered `i` on that is no flag.
pub open spec fn first_positional(args: Seq<Seq<char>>, i: int) -> Option<Seq<char>>
    decreases args.len() - i,
{
    if i >= args.len() {
        None
    } else if !(args[i].len() > 0 && args[i][0] == '-') {
        Some(args[i])
    } else {
        first_positional(args, i + 1)
    }
}

/// The path of the configuration file that the arguments give, the first of
/// which is the name of the program: what follows the first `-c`, or else the
/// first that is no flag, or else `config.yaml`.
pub open spec fn config_path(args: Seq<Seq<char>>) -> Seq<char> {
    match after_flag(args, 1) {
        Some(path) => path,
        None => match first_positional(args, 1) {
            Some(path) => path,
            None => "config.yaml"@,
        },
    }
}

/// Whether an argument is a flag.
fn is_flag(arg: &str) -> (r: bool)
    ensures
        r == (arg@.len() > 0 && arg@[0] == '-'),
{
    let chars = text::chars_of(arg);
    chars.len() > 0 && chars[0] == '-'
}

/// The path of the configuration file: what follows the first `-c` among the
/// arguments, the first of which is the name of the program, or else the first
/// that is no flag, or else `config.yaml`.
pub fn parse_config_arg(args: &Vec<String>) -> (r: String)
    ensures
        r@ == config_path(texts(args@)),
{
    let ghost all = texts(args@);
    let mut i: usize = 1;
    while i < args.len() && i + 1 < args.len()
        invariant
            i >= 1,
            i <= args@.len() || i == 1,
            all == texts(args@),
            after_flag(all, 1) == after_flag(all, i as int),
        decreases args@.len() - i,
    {
        assert(all[i as int] == args@[i as int]@);
        assert(all[i + 1] == args@[i + 1]@);
        if text::same_text(args[i].as_str(), "-c") {
            return args[i + 1].clone();
        }
        i += 1;
    }
    assert(after_flag(all, 1) is None);
    let mut j: usize = 1;
    while j < args.len()
        invariant
            j >= 1,
            j <= args@.len() || j == 1,
            all == texts(args@),
            after_flag(all, 1) is None,
            first_positional(all, 1) == first_positional(all, j as int),
        decreases args@.len() - j,
    {
        assert(all[j as int] == args@[j as int]@);
        if !is_flag(args[j].as_str()) {
            return args[j].clone();
        }
        j += 1;
    }
    "config.yaml".to_string()
}

/// Which servers are started.
#[derive(Clone, Copy, Debug, PartialEq, Eq, Structural)]
pub struct Enabled {
    pub hysteria2: bool,
    pub vless: bool,
}

/// Whether a configuration has the Hysteria2 server started.
pub open spec fn hysteria2_enabled(cfg: Config) -> bool {
    cfg.hysteria2 is Some && cfg.hysteria2->0.enable
}

/// Whether a configuration has the VLESS server started.
pub open spec fn vless_enabled(cfg: Config) -> bool {
    cfg.vless is Some && cfg.vless->0.enable
}

/// Which servers a configuration has started; `None` where it is not a single
/// one.
pub fn enabled(cfg: &Config) -> (r: Option<Enabled>)
    ensures
        r == if hysteria2_enabled(*cfg) || vless_enabled(*cfg) {
            Some(Enabled { hysteria2: hysteria2_enabled(*cfg), vless: vless_enabled(*cfg) })
        } else {
            None
        },
{
    let hysteria2 = match &cfg.hysteria2 {
        Some(c) => c.enable,
        None => false,
    };
    let vless = match &cfg.vless {
        Some(c) => c.enable,
        None => false,
    };
    if hysteria2 || vless {
        Some(Enabled { hysteria2, vless })
    } else {
        None
    }
}

/// The path is what follows the first `-c` behind the name of the program,
/// wherever that stands.
pub proof fn law_flag_gives_the_path(args: Seq<Seq<char>>, k: int)
    requires
        1 <= k,
        k + 1 < args.len(),
        args[k] == "-c"@,
        forall|i: int| 1 <= i < k ==> #[trigger] args[i] != "-c"@,
    ensures
        config_path(args) == args[k + 1],
{
    lemma_flag_found(args, 1, k);
}

proof fn lemma_flag_found(args: Seq<Seq<char>>, i: int, k: int)
    requires
        1 <= i <= k,
        k + 1 < args.len(),
        args[k] == "-c"@,
        forall|j: int| i <= j < k ==> #[trigger] args[j] != "-c"@,
    ensures
        after_flag(args, i) == Some(args[k + 1]),
    decreases k - i,
{
    if i < k {
        assert(args[i] != "-c"@);
        lemma_flag_found(args, i + 1, k);
    }
}

proof fn lemma_no_flag(args: Seq<Seq<char>>, i: int)
    requires
        1 <= i,
        forall|j: int| i <= j < args.len() - 1 ==> #[trigger] args[j] != "-c"@,
    ensures
        after_flag(args, i) is None,
    decreases args.len() - i,
{
    if i + 1 < args.len() {
        assert(args[i] != "-c"@);
        lemma_no_flag(args, i + 1);
    }
}

/// Where no `-c` has anything behind it, the path is the first argument that
/// does not start with a hyphen.
pub proof fn law_first_argument_gives_the_path(args: Seq<Seq<char>>, k: int)
    requires
        1 <= k < args.len(),
        forall|i: int| 1 <= i < args.len() - 1 ==> #[trigger] args[i] != "-c"@,
        args[k].len() == 0 || args[k][0] != '-',
        forall|i: int| 1 <= i < k ==> (#[trigger] args[i]).len() > 0 && args[i][0] == '-',
    ensures
        config_path(args) == args[k],
{
    lemma_no_flag(args, 1);
    lemma_positional_found(args, 1, k);
}

proof fn lemma_positional_found(args: Seq<Seq<char>>, i: int, k: int)
    requires
        1 <= i <= k < args.len(),
        args[k].len() == 0 || args[k][0] != '-',
        forall|j: int| i <= j < k ==> (#[trigger] args[j]).len() > 0 && args[j][0] == '-',
    ensures
        first_positional(args, i) == Some(args[k]),
    decreases k - i,
{
    if i < k {
        assert(args[i].len() > 0);
        lemma_positional_found(args, i + 1, k);
    }
}

/// Where every argument is a flag, and no `-c` has anything behind it, the path
/// is `config.yaml`.
pub proof fn law_flags_alone_give_the_default(args: Seq<Seq<char>>)
    requires
        forall|i: int| 1 <= i < args.len() - 1 ==> #[trigger] args[i] != "-c"@,
        forall|i: int| 1 <= i < args.len() ==> (#[trigger] args[i]).len() > 0 && args[i][0] == '-',
    ensures
        config_path(args) == "config.yaml"@,
{
    lemma_no_flag(args, 1);
    lemma_no_positional(args, 1);
}

proof fn lemma_no_positional(args: Seq<Seq<char>>, i: int)
    requires
        1 <= i,
        forall|j: int| i <= j < args.len() ==> (#[trigger] args[j]).len() > 0 && args[j][0] == '-',
    ensures
        first_positional(args, i) is None,
    decreases args.len() - i,
{
    if i < args.len() {
        assert(args[i].len() > 0);
        lemma_no_positional(args, i + 1);
    }
}

/// A server is started exactly where it is configured and enabled.
pub proof fn law_enabled_servers(cfg: Config)
    ensures
        hysteria2_enabled(cfg) <==> (cfg.hysteria2 matches Some(c) && c.enable),
        vless_enabled(cfg) <==> (cfg.vless matches Some(c) && c.enable),
{
}

} // verus!
