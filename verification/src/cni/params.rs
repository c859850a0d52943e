//! The parameters of a request.
use vstd::prelude::*;

use crate::cni::error::{invalid_env, CniError};
use crate::strmap::StrMap;
use crate::text::{
    join2, law_empty_pieces_go, lemma_split_join, lemma_split_single, non_empty, same_text, split,
    split_non_empty, split_text, text_or, text_or_spec, texts, Sep,
};

verus! {

/// What is asked for.
#[derive(Clone, Copy, Debug, PartialEq, Eq, Structural)]
pub enum Command {
    Add,
    Del,
    Check,
    Version,
    Gc,
    Status,
}

impl Command {
    /// The command that a name stands for.
    pub open spec fn named(s: Seq<char>) -> Option<Command> {
        if s == "ADD"@ {
            Some(Command::Add)
        } else if s == "DEL"@ {
            Some(Command::Del)
        } else if s == "CHECK"@ {
            Some(Command::Check)
        } else if s == "VERSION"@ {
            Some(Command::Version)
        } else if s == "GC"@ {
            Some(Command::Gc)
        } else if s == "STATUS"@ {
            Some(Command::Status)
        } else {
            None
        }
    }

    /// The command that a name stands for.
    pub fn parse(s: &str) -> (r: Result<Command, CniError>)
        ensures
            match Command::named(s@) {
                Some(c) => r == Ok::<Command, CniError>(c),
                None => r matches Err(e) && e@ == invalid_env("unknown CNI_COMMAND: "@ + s@),
            },
    {
        if same_text(s, "ADD") {
            Ok(Command::Add)
        } else if same_text(s, "DEL") {
            Ok(Command::Del)
        } else if same_text(s, "CHECK") {
            Ok(Command::Check)
        } else if same_text(s, "VERSION") {
            Ok(Command::Version)
        } else if same_text(s, "GC") {
            Ok(Command::Gc)
        } else if same_text(s, "STATUS") {
            Ok(Command::Status)
        } else {
            Err(CniError::InvalidEnv(join2("unknown CNI_COMMAND: ", s)))
        }
    }
}

impl std::str::FromStr for Command {
    type Err = CniError;

    fn from_str(s: &str) -> (r: Result<Command, CniError>)
        ensures
            match Command::named(s@) {
                Some(c) => r == Ok::<Command, CniError>(c),
                None => r matches Err(e) && e@ == invalid_env("unknown CNI_COMMAND: "@ + s@),
            },
    {
        Command::parse(s)
    }
}

/// The environment variables that a request comes with; `None` where one is not set.
pub struct CniEnv {
    pub command: Option<String>,
    pub container_id: Option<String>,
    pub netns: Option<String>,
    pub ifname: Option<String>,
    pub args: Option<String>,
    pub path: Option<String>,
}

/// The parameters of a request.
pub struct CniParams {
    pub command: Command,
    pub container_id: Option<String>,
    pub netns: Option<String>,
    pub ifname: Option<String>,
    pub args: StrMap<String>,
    pub path: Vec<String>,
}

/// The key and the value of a pair: what stands before the first `=`, and all that stands behind
/// it. A text without `=` is no pair.
pub open spec fn pair_of(piece: Seq<char>) -> Option<(Seq<char>, Seq<char>)> {
    if piece.contains('=') {
        let i = first_eq(piece);
        Some((piece.take(i), piece.skip(i + 1)))
    } else {
        None
    }
}

/// The position of the first `=` of a text, or its length.
pub open spec fn first_eq(s: Seq<char>) -> int
    decreases s.len(),
{
    if s.len() == 0 {
        0
    } else if s[0] == '=' {
        0
    } else {
        1 + first_eq(s.drop_first())
    }
}

/// The pairs among the pieces of a text; of two with one key the later counts.
pub open spec fn pairs_of(pieces: Seq<Seq<char>>) -> Map<Seq<char>, Seq<char>>
    decreases pieces.len(),
{
    if pieces.len() == 0 {
        Map::empty()
    } else {
        let front = pairs_of(pieces.drop_last());
        match pair_of(pieces.last()) {
            Some((k, v)) => front.insert(k, v),
            None => front,
        }
    }
}

/// The texts that a map of strings holds.
pub open spec fn map_texts(m: Map<Seq<char>, String>) -> Map<Seq<char>, Seq<char>> {
    m.map_values(|s: String| s@)
}

proof fn lemma_first_eq(s: Seq<char>, i: int)
    requires
        0 <= i <= s.len(),
        forall|j: int| 0 <= j < i ==> #[trigger] s[j] != '=',
        i < s.len() ==> s[i] == '=',
    ensures
        first_eq(s) == i,
    decreases s.len(),
{
    if s.len() > 0 && i > 0 {
        assert(s[0] != '=');
        let t = s.drop_first();
        assert forall|j: int| 0 <= j < i - 1 implies #[trigger] t[j] != '=' by {
            assert(t[j] == s[j + 1]);
        }
        lemma_first_eq(t, i - 1);
    }
}

fn parse_pair(piece: &str) -> (r: Option<(String, String)>)
    ensures
        match r {
            Some((k, v)) => pair_of(piece@) == Some((k@, v@)),
            None => pair_of(piece@) is None,
        },
{
    let n: usize = piece.unicode_len();
    let mut i: usize = 0;
    while i < n
        invariant
            n == piece@.len(),
            i <= n,
            forall|j: int| 0 <= j < i ==> #[trigger] piece@[j] != '=',
        decreases n - i,
    {
        if piece.get_char(i) == '=' {
            proof {
                lemma_first_eq(piece@, i as int);
                assert(piece@.contains('='));
                assert(piece@.take(i as int) == piece@.subrange(0, i as int));
                assert(piece@.skip(i + 1) == piece@.subrange(i + 1, n as int));
            }
            return Some(
                (
                    piece.substring_char(0, i).to_owned(),
                    piece.substring_char(i + 1, n).to_owned(),
                ),
            );
        }
        i = i + 1;
    }
    None
}

fn parse_args(args: &str) -> (r: StrMap<String>)
    ensures
        r.wf(),
        map_texts(r@) == pairs_of(split(args@, Sep::Char(';'))),
{
    let pieces: Vec<String> = split_text(args, Sep::Char(';'));
    let ghost all = texts(pieces@);
    let mut out: StrMap<String> = StrMap::new();
    let mut i: usize = 0;
    assert(all.take(0) == Seq::<Seq<char>>::empty());
    assert(map_texts(out@) == Map::<Seq<char>, Seq<char>>::empty());
    while i < pieces.len()
        invariant
            i <= pieces.len(),
            out.wf(),
            all == texts(pieces@),
            map_texts(out@) == pairs_of(all.take(i as int)),
        decreases pieces.len() - i,
    {
        proof {
            assert(all.take(i + 1).drop_last() == all.take(i as int));
            assert(all.take(i + 1).last() == pieces@[i as int]@);
        }
        let ghost before = out@;
        match parse_pair(pieces[i].as_str()) {
            Some((k, v)) => {
                let ghost key = k@;
                let ghost val = v;
                out.insert(k, v);
                assert(map_texts(out@) == map_texts(before).insert(key, val@));
            },
            None => {},
        }
        i = i + 1;
    }
    assert(all.take(i as int) == all);
    out
}

fn copied(o: &Option<String>) -> (r: Option<String>)
    ensures
        same_option(r, *o),
{
    match o {
        Some(s) => Some(s.clone()),
        None => None,
    }
}

/// Whether two optional texts are the same.
pub open spec fn same_option(a: Option<String>, b: Option<String>) -> bool {
    match (a, b) {
        (Some(x), Some(y)) => x@ == y@,
        (None, None) => true,
        _ => false,
    }
}

impl CniParams {
    /// Whether these are the parameters of an environment that asks for `command`.
    pub open spec fn reflects(self, env: CniEnv, command: Command) -> bool {
        &&& self.command == command
        &&& same_option(self.container_id, env.container_id)
        &&& same_option(self.netns, env.netns)
        &&& same_option(self.ifname, env.ifname)
        &&& self.args.wf()
        &&& map_texts(self.args@) == pairs_of(
            split(text_or_spec(env.args, ""@), Sep::Char(';')),
        )
        &&& texts(self.path@) == non_empty(split(text_or_spec(env.path, ""@), Sep::Char(':')))
    }

    /// The parameters that the environment holds. The command must be there and be known; the pairs
    /// of the arguments are separated by `;`, the directories of the path by `:`.
    pub fn from_env(env: &CniEnv) -> (r: Result<CniParams, CniError>)
        ensures
            match env.command {
                None => r matches Err(e) && e@ == invalid_env("missing CNI_COMMAND"@),
                Some(name) => match Command::named(name@) {
                    None => r matches Err(e) && e@ == invalid_env(
                        "unknown CNI_COMMAND: "@ + name@,
                    ),
                    Some(command) => r matches Ok(p) && p.reflects(*env, command),
                },
            },
    {
        let name: &String = match &env.command {
            Some(name) => name,
            None => {
                return Err(CniError::InvalidEnv("missing CNI_COMMAND".to_owned()));
            },
        };
        let command: Command = match Command::parse(name.as_str()) {
            Ok(command) => command,
            Err(e) => {
                return Err(e);
            },
        };
        Ok(
            CniParams {
                command,
                container_id: copied(&env.container_id),
                netns: copied(&env.netns),
                ifname: copied(&env.ifname),
                args: parse_args(text_or(&env.args, "")),
                path: split_non_empty(text_or(&env.path, ""), Sep::Char(':')),
            },
        )
    }
}

/// A piece of the arguments is a pair exactly where it holds an equals sign: what stands before the
/// first one is the key, all behind it the value.
pub proof fn law_pairs_are_cut_at_the_first_sign(key: Seq<char>, value: Seq<char>)
    requires
        !key.contains('='),
    ensures
        pair_of(key.push('=') + value) == Some((key, value)),
        pair_of(key) is None,
{
    let s = key.push('=') + value;
    let n = key.len() as int;
    assert(s[n] == '=');
    assert(s.contains('='));
    assert forall|j: int| 0 <= j < n implies #[trigger] s[j] != '=' by {
        assert(s[j] == key[j]);
        assert(key.contains(key[j]));
    }
    lemma_first_eq(s, n);
    assert(s.take(n) =~= key);
    assert(s.skip(n + 1) =~= value);
}

/// The arguments give each key the value of the last pair that has it; a piece that is no pair adds
/// nothing.
pub proof fn law_later_pairs_count(pieces: Seq<Seq<char>>, piece: Seq<char>, k: Seq<char>)
    ensures
        ({
            let m = pairs_of(pieces);
            let r = pairs_of(pieces.push(piece));
            match pair_of(piece) {
                None => r == m,
                Some((key, value)) => {
                    &&& r.dom() == m.dom().insert(key)
                    &&& r[key] == value
                    &&& k != key && m.dom().contains(k) ==> r[k] == m[k]
                },
            }
        }),
        pairs_of(Seq::empty()) == Map::<Seq<char>, Seq<char>>::empty(),
{
    assert(pieces.push(piece).drop_last() =~= pieces);
    assert(pieces.push(piece).last() == piece);
}

/// The name of a command, as the container runtime writes it.
pub open spec fn command_name(c: Command) -> Seq<char> {
    match c {
        Command::Add => "ADD"@,
        Command::Del => "DEL"@,
        Command::Check => "CHECK"@,
        Command::Version => "VERSION"@,
        Command::Gc => "GC"@,
        Command::Status => "STATUS"@,
    }
}

/// Every command is known by its name, and by no other text.
pub proof fn law_commands_have_one_name(c: Command, s: Seq<char>)
    ensures
        Command::named(s) == Some(c) <==> s == command_name(c),
{
    reveal_strlit("ADD");
    reveal_strlit("DEL");
    reveal_strlit("CHECK");
    reveal_strlit("VERSION");
    reveal_strlit("GC");
    reveal_strlit("STATUS");
    assert("ADD"@[0] != "DEL"@[0]);
    assert("ADD"@.len() == 3 && "DEL"@.len() == 3 && "CHECK"@.len() == 5 && "VERSION"@.len() == 7
        && "GC"@.len() == 2 && "STATUS"@.len() == 6);
}


/// Two pairs with a semicolon between them are the arguments, and nothing else is; a path of two
/// directories with a colon between them is these two in order.
pub proof fn law_arguments_and_path_are_cut(
    p: CniParams,
    env: CniEnv,
    k1: Seq<char>,
    v1: Seq<char>,
    k2: Seq<char>,
    v2: Seq<char>,
    d1: Seq<char>,
    d2: Seq<char>,
)
    requires
        p.reflects(env, p.command),
        !k1.contains('=') && !k2.contains('=') && k1 != k2,
        !k1.contains(';') && !v1.contains(';') && !k2.contains(';') && !v2.contains(';'),
        env.args matches Some(args) && args@ == (k1.push('=') + v1).push(';') + (k2.push('=') + v2),
        d1.len() > 0 && d2.len() > 0 && !d1.contains(':') && !d2.contains(':'),
        env.path matches Some(path) && path@ == d1.push(':') + d2,
    ensures
        p.args@.dom() == set![k1, k2],
        p.args@[k1]@ == v1,
        p.args@[k2]@ == v2,
        texts(p.path@) == seq![d1, d2],
{
    let a = k1.push('=') + v1;
    let b = k2.push('=') + v2;
    let semi = Sep::Char(';');
    lemma_free_of(k1, v1);
    lemma_free_of(k2, v2);
    lemma_split_single(a, semi);
    lemma_split_single(b, semi);
    lemma_split_join(a, ';', b, semi);
    let pieces = split(a.push(';') + b, semi);
    assert(pieces =~= seq![a].push(b));
    law_pairs_are_cut_at_the_first_sign(k1, v1);
    law_pairs_are_cut_at_the_first_sign(k2, v2);
    let none: Seq<Seq<char>> = Seq::empty();
    assert(seq![a] =~= none.push(a));
    law_later_pairs_count(none, a, k1);
    law_later_pairs_count(seq![a], b, k1);
    let m = pairs_of(pieces);
    assert(map_texts(p.args@) == m);
    assert(p.args@.dom() =~= map_texts(p.args@).dom());
    assert(m.dom() =~= set![k1, k2]);
    assert(map_texts(p.args@)[k1] == p.args@[k1]@);
    assert(map_texts(p.args@)[k2] == p.args@[k2]@);
    let colon = Sep::Char(':');
    assert forall|i: int| 0 <= i < d1.len() implies !colon.matches_char(#[trigger] d1[i]) by {
        assert(d1.contains(d1[i]));
    }
    assert forall|i: int| 0 <= i < d2.len() implies !colon.matches_char(#[trigger] d2[i]) by {
        assert(d2.contains(d2[i]));
    }
    lemma_split_single(d1, colon);
    lemma_split_single(d2, colon);
    lemma_split_join(d1, ':', d2, colon);
    law_empty_pieces_go(seq![d1], seq![d2], d1);
    law_empty_pieces_go(seq![d1], seq![d2], d2);
    assert(seq![d1] + seq![d2] =~= seq![d1, d2]);
}

proof fn lemma_free_of(k: Seq<char>, v: Seq<char>)
    requires
        !k.contains(';') && !v.contains(';'),
    ensures
        forall|i: int|
            0 <= i < (k.push('=') + v).len() ==> !Sep::Char(';').matches_char(
                #[trigger] (k.push('=') + v)[i],
            ),
{
    let s = k.push('=') + v;
    assert forall|i: int| 0 <= i < s.len() implies !Sep::Char(';').matches_char(#[trigger] s[i]) by {
        if i < k.len() {
            assert(s[i] == k[i]);
            assert(k.contains(k[i]));
        } else if i > k.len() {
            assert(s[i] == v[i - k.len() - 1]);
            assert(v.contains(v[i - k.len() - 1]));
        }
    }
}


}
