//! What the command lines of the report and the trainer say.

use vstd::prelude::*;

use crate::text;

verus! {

// ---------------------------------------------------------------------------
// Agents
// ---------------------------------------------------------------------------

/// Who plays at a seat.
#[derive(Debug, Clone, Copy, PartialEq, Eq, Structural)]
pub enum AgentSpec {
    Calling,
    Random(u64),
    Human,
    Nit(u64),
    Tag(u64),
    Lag(u64),
    Maniac(u64),
    Tilt(u64),
}

/// The agents that take a seed.
#[derive(Debug, Clone, Copy, PartialEq, Eq, Structural)]
pub enum Bot {
    Random,
    Nit,
    Tag,
    Lag,
    Maniac,
    Tilt,
}

impl Bot {
    /// The bot's name.
    pub open spec fn word(self) -> Seq<char> {
        match self {
            Bot::Random => "random"@,
            Bot::Nit => "nit"@,
            Bot::Tag => "tag"@,
            Bot::Lag => "lag"@,
            Bot::Maniac => "maniac"@,
            Bot::Tilt => "tilt"@,
        }
    }

    /// The name and a colon.
    pub open spec fn prefix(self) -> Seq<char> {
        match self {
            Bot::Random => "random:"@,
            Bot::Nit => "nit:"@,
            Bot::Tag => "tag:"@,
            Bot::Lag => "lag:"@,
            Bot::Maniac => "maniac:"@,
            Bot::Tilt => "tilt:"@,
        }
    }

    /// The bot with its seed.
    pub open spec fn seeded(self, seed: u64) -> AgentSpec {
        match self {
            Bot::Random => AgentSpec::Random(seed),
            Bot::Nit => AgentSpec::Nit(seed),
            Bot::Tag => AgentSpec::Tag(seed),
            Bot::Lag => AgentSpec::Lag(seed),
            Bot::Maniac => AgentSpec::Maniac(seed),
            Bot::Tilt => AgentSpec::Tilt(seed),
        }
    }

    fn name(self) -> (s: &'static str)
        ensures
            s@ == self.word(),
    {
        match self {
            Bot::Random => "random",
            Bot::Nit => "nit",
            Bot::Tag => "tag",
            Bot::Lag => "lag",
            Bot::Maniac => "maniac",
            Bot::Tilt => "tilt",
        }
    }

    fn at(self, seed: u64) -> (a: AgentSpec)
        ensures
            a == self.seeded(seed),
    {
        match self {
            Bot::Random => AgentSpec::Random(seed),
            Bot::Nit => AgentSpec::Nit(seed),
            Bot::Tag => AgentSpec::Tag(seed),
            Bot::Lag => AgentSpec::Lag(seed),
            Bot::Maniac => AgentSpec::Maniac(seed),
            Bot::Tilt => AgentSpec::Tilt(seed),
        }
    }
}

/// The bot whose name, with a colon, begins `t`.
pub open spec fn named_bot(t: Seq<char>) -> Option<Bot> {
    if "random:"@.is_prefix_of(t) {
        Some(Bot::Random)
    } else if "nit:"@.is_prefix_of(t) {
        Some(Bot::Nit)
    } else if "tag:"@.is_prefix_of(t) {
        Some(Bot::Tag)
    } else if "lag:"@.is_prefix_of(t) {
        Some(Bot::Lag)
    } else if "maniac:"@.is_prefix_of(t) {
        Some(Bot::Maniac)
    } else if "tilt:"@.is_prefix_of(t) {
        Some(Bot::Tilt)
    } else {
        None
    }
}

/// The agent that `s` names, or what is wrong with it: a plain name, or the name of a
/// bot with a colon and a seed.
pub open spec fn named_agent(s: Seq<char>) -> Result<AgentSpec, Seq<char>> {
    let t = text::trimmed(s);
    if t == "calling"@ {
        Ok(AgentSpec::Calling)
    } else if t == "human"@ {
        Ok(AgentSpec::Human)
    } else {
        match named_bot(t) {
            Some(bot) => match text::number_in(t.skip(bot.prefix().len() as int)) {
                Some(seed) => if seed <= u64::MAX {
                    Ok(bot.seeded(seed as u64))
                } else {
                    Err("invalid "@ + bot.word() + " seed in '"@ + t + "'"@)
                },
                None => Err("invalid "@ + bot.word() + " seed in '"@ + t + "'"@),
            },
            None => Err("unknown agent '"@ + t + "' — valid options: "@ + "calling, random:<seed>, human, nit:<seed>, tag:<seed>, lag:<seed>, maniac:<seed>, tilt:<seed>"@),
        }
    }
}

/// The same answer, with the message as characters.
pub open spec fn says<T>(r: Result<T, String>, said: Result<T, Seq<char>>) -> bool {
    match said {
        Ok(v) => r == Ok::<T, String>(v),
        Err(msg) => r matches Err(m) && m@ == msg,
    }
}

/// The rest of `s` after `prefix`.
fn strip_prefix<'a>(s: &'a str, prefix: &str) -> (rest: Option<&'a str>)
    ensures
        match rest {
            Some(r) => prefix@.is_prefix_of(s@) && r@ == s@.skip(prefix@.len() as int),
            None => !prefix@.is_prefix_of(s@),
        },
{
    let n: usize = prefix.unicode_len();
    let len: usize = s.unicode_len();
    if len < n {
        return None;
    }
    let head = s.substring_char(0, n);
    if text::same(head, prefix) {
        let rest = s.substring_char(n, len);
        assert(rest@ =~= s@.skip(n as int));
        Some(rest)
    } else {
        None
    }
}

/// The bot that `t` begins with, and the rest behind the colon.
fn bot_and_seed(t: &str) -> (r: Option<(Bot, &str)>)
    ensures
        match r {
            Some((bot, rest)) => named_bot(t@) == Some(bot) && rest@ == t@.skip(
                bot.prefix().len() as int,
            ),
            None => named_bot(t@) is None,
        },
{
    if let Some(rest) = strip_prefix(t, "random:") {
        Some((Bot::Random, rest))
    } else if let Some(rest) = strip_prefix(t, "nit:") {
        Some((Bot::Nit, rest))
    } else if let Some(rest) = strip_prefix(t, "tag:") {
        Some((Bot::Tag, rest))
    } else if let Some(rest) = strip_prefix(t, "lag:") {
        Some((Bot::Lag, rest))
    } else if let Some(rest) = strip_prefix(t, "maniac:") {
        Some((Bot::Maniac, rest))
    } else if let Some(rest) = strip_prefix(t, "tilt:") {
        Some((Bot::Tilt, rest))
    } else {
        None
    }
}

fn with_seed(prefix: &str, seed: u64) -> (s: String)
    ensures
        s@ == prefix@ + text::decimal(seed as nat),
{
    let mut s = prefix.to_owned();
    text::push_decimal(&mut s, seed);
    s
}

impl AgentSpec {
    /// The agent's name.
    pub open spec fn title(self) -> Seq<char> {
        match self {
            AgentSpec::Calling => "calling"@,
            AgentSpec::Human => "human"@,
            AgentSpec::Random(seed) => Bot::Random.prefix() + text::decimal(seed as nat),
            AgentSpec::Nit(seed) => Bot::Nit.prefix() + text::decimal(seed as nat),
            AgentSpec::Tag(seed) => Bot::Tag.prefix() + text::decimal(seed as nat),
            AgentSpec::Lag(seed) => Bot::Lag.prefix() + text::decimal(seed as nat),
            AgentSpec::Maniac(seed) => Bot::Maniac.prefix() + text::decimal(seed as nat),
            AgentSpec::Tilt(seed) => Bot::Tilt.prefix() + text::decimal(seed as nat),
        }
    }

    /// Reads an agent's name.
    pub fn parse(s: &str) -> (r: Result<AgentSpec, String>)
        ensures
            says(r, named_agent(s@)),
    {
        let t = text::trim(s);
        if text::same(t, "calling") {
            return Ok(AgentSpec::Calling);
        }
        if text::same(t, "human") {
            return Ok(AgentSpec::Human);
        }
        if let Some((bot, seed_str)) = bot_and_seed(t) {
            return match text::parse_number(seed_str, u64::MAX) {
                Some(seed) => Ok(bot.at(seed)),
                None => {
                    let mut msg = "invalid ".to_owned();
                    msg.append(bot.name());
                    msg.append(" seed in '");
                    msg.append(t);
                    msg.append("'");
                    assert(msg@ =~= "invalid "@ + bot.word() + " seed in '"@ + t@ + "'"@);
                    Err(msg)
                },
            };
        }
        let mut msg = "unknown agent '".to_owned();
        msg.append(t);
        msg.append("' — valid options: ");
        msg.append(
            "calling, random:<seed>, human, nit:<seed>, tag:<seed>, lag:<seed>, maniac:<seed>, tilt:<seed>",
        );
        Err(msg)
    }

    /// The agent's name.
    pub fn name(&self) -> (s: String)
        ensures
            s@ == self.title(),
    {
        match self {
            AgentSpec::Calling => "calling".to_owned(),
            AgentSpec::Human => "human".to_owned(),
            AgentSpec::Random(seed) => with_seed("random:", *seed),
            AgentSpec::Nit(seed) => with_seed("nit:", *seed),
            AgentSpec::Tag(seed) => with_seed("tag:", *seed),
            AgentSpec::Lag(seed) => with_seed("lag:", *seed),
            AgentSpec::Maniac(seed) => with_seed("maniac:", *seed),
            AgentSpec::Tilt(seed) => with_seed("tilt:", *seed),
        }
    }

    pub fn is_human(&self) -> (b: bool)
        ensures
            b == (*self == AgentSpec::Human),
    {
        match self {
            AgentSpec::Human => true,
            _ => false,
        }
    }
}

/// The agents that `parts` name, or what is wrong with the first that names none.
pub open spec fn named_agents(parts: Seq<Seq<char>>) -> Result<Seq<AgentSpec>, Seq<char>>
    decreases parts.len(),
{
    if parts.len() == 0 {
        Ok(Seq::empty())
    } else {
        match named_agents(parts.drop_last()) {
            Err(msg) => Err(msg),
            Ok(specs) => match named_agent(parts.last()) {
                Ok(spec) => Ok(specs.push(spec)),
                Err(msg) => Err(msg),
            },
        }
    }
}

/// How many of the agents are human.
pub open spec fn humans(specs: Seq<AgentSpec>) -> int
    decreases specs.len(),
{
    if specs.len() == 0 {
        0
    } else {
        humans(specs.drop_last()) + if specs.last() == AgentSpec::Human {
            1int
        } else {
            0
        }
    }
}

/// The agents that a command line names, or what is wrong with it: at least two, at
/// most one human, and no human in parallel runs.
pub open spec fn seated_agents(s: Seq<char>, threads: int) -> Result<Seq<AgentSpec>, Seq<char>> {
    match named_agents(text::cut(s, ',')) {
        Err(msg) => Err(msg),
        Ok(specs) => if specs.len() < 2 {
            Err("need at least 2 agents"@)
        } else if humans(specs) > 1 {
            Err("at most one human seat is supported (multiple humans share a terminal)"@)
        } else if humans(specs) > 0 && threads > 1 {
            Err("human agent is not compatible with --threads > 1"@)
        } else {
            Ok(specs)
        },
    }
}

/// An error among the first parts is the error of all parts.
proof fn first_error_stays(parts: Seq<Seq<char>>, i: int)
    requires
        0 <= i <= parts.len(),
        named_agents(parts.take(i)) is Err,
    ensures
        named_agents(parts) == named_agents(parts.take(i)),
    decreases parts.len() - i,
{
    if i == parts.len() {
        assert(parts.take(i) =~= parts);
    } else {
        assert(parts.take(i + 1).drop_last() =~= parts.take(i));
        first_error_stays(parts, i + 1);
    }
}

/// Reads the list of agents.
pub fn parse_agents(s: &str, threads: usize) -> (r: Result<Vec<AgentSpec>, String>)
    ensures
        match seated_agents(s@, threads as int) {
            Ok(specs) => r matches Ok(v) && v@ == specs,
            Err(msg) => r matches Err(m) && m@ == msg,
        },
{
    let parts = text::split(s, ',');
    let ghost all = text::cut(s@, ',');
    let mut specs: Vec<AgentSpec> = Vec::new();
    let mut human_count: usize = 0;
    let mut i: usize = 0;
    assert(all.take(0) =~= Seq::<Seq<char>>::empty());
    while i < parts.len()
        invariant
            i <= parts@.len(),
            all == text::cut(s@, ','),
            text::texts(parts@) == all,
            specs@.len() == i,
            named_agents(all.take(i as int)) == Ok::<Seq<AgentSpec>, Seq<char>>(specs@),
            human_count == humans(specs@),
            human_count <= i,
        decreases parts@.len() - i,
    {
        let part = parts[i];
        proof {
            assert(all[i as int] == part@);
            assert(all.take(i + 1).drop_last() =~= all.take(i as int));
        }
        match AgentSpec::parse(part) {
            Err(msg) => {
                proof {
                    first_error_stays(all, i + 1);
                }
                return Err(msg);
            },
            Ok(spec) => {
                let ghost before = specs@;
                specs.push(spec);
                assert(specs@.drop_last() =~= before);
                if spec.is_human() {
                    human_count = human_count + 1;
                }
            },
        }
        i = i + 1;
    }
    assert(all.take(i as int) =~= all);
    if specs.len() < 2 {
        return Err("need at least 2 agents".to_owned());
    }
    if human_count > 1 {
        return Err(
            "at most one human seat is supported (multiple humans share a terminal)".to_owned(),
        );
    }
    if human_count > 0 && threads > 1 {
        return Err("human agent is not compatible with --threads > 1".to_owned());
    }
    Ok(specs)
}

/// An agent's name reads back as the agent.
pub proof fn names_read_back(spec: AgentSpec)
    ensures
        named_agent(spec.title()) == Ok::<AgentSpec, Seq<char>>(spec),
{
    reveal_strlit("calling");
    reveal_strlit("human");
    match spec {
        AgentSpec::Calling | AgentSpec::Human => {},
        AgentSpec::Random(seed) => seeded_name_reads_back(Bot::Random, seed),
        AgentSpec::Nit(seed) => seeded_name_reads_back(Bot::Nit, seed),
        AgentSpec::Tag(seed) => seeded_name_reads_back(Bot::Tag, seed),
        AgentSpec::Lag(seed) => seeded_name_reads_back(Bot::Lag, seed),
        AgentSpec::Maniac(seed) => seeded_name_reads_back(Bot::Maniac, seed),
        AgentSpec::Tilt(seed) => seeded_name_reads_back(Bot::Tilt, seed),
    }
}

proof fn seeded_name_reads_back(bot: Bot, seed: u64)
    ensures
        named_agent(bot.prefix() + text::decimal(seed as nat)) == Ok::<AgentSpec, Seq<char>>(
            bot.seeded(seed),
        ),
{
    reveal_strlit("calling");
    reveal_strlit("human");
    reveal_strlit("random:");
    reveal_strlit("nit:");
    reveal_strlit("tag:");
    reveal_strlit("lag:");
    reveal_strlit("maniac:");
    reveal_strlit("tilt:");
    let p = bot.prefix();
    let t = p + text::decimal(seed as nat);
    text::numbers_read_back(seed as nat);
    text::decimal_is_digits(seed as nat);
    assert(t[0] == p[0]);
    assert(t.last() == text::decimal(seed as nat).last());
    assert(text::trimmed(t) == t);
    assert(t.skip(p.len() as int) =~= text::decimal(seed as nat));
    assert(p.is_prefix_of(t)) by {
        assert(t.subrange(0, p.len() as int) =~= p);
    }
    // Up to its colon, no bot's name begins another's.
    assert(named_bot(t) == Some(bot)) by {
        assert(t[0] == p[0] && t[1] == p[1]);
        assert(bot != Bot::Random ==> !"random:"@.is_prefix_of(t)) by {
            assert("random:"@.is_prefix_of(t) ==> t[0] == "random:"@[0]);
        }
        assert(bot != Bot::Nit ==> !"nit:"@.is_prefix_of(t)) by {
            assert("nit:"@.is_prefix_of(t) ==> t[0] == "nit:"@[0]);
        }
        assert(bot != Bot::Tag ==> !"tag:"@.is_prefix_of(t)) by {
            assert("tag:"@.is_prefix_of(t) ==> t[0] == "tag:"@[0] && t[1] == "tag:"@[1]);
        }
        assert(bot != Bot::Lag ==> !"lag:"@.is_prefix_of(t)) by {
            assert("lag:"@.is_prefix_of(t) ==> t[0] == "lag:"@[0]);
        }
        assert(bot != Bot::Maniac ==> !"maniac:"@.is_prefix_of(t)) by {
            assert("maniac:"@.is_prefix_of(t) ==> t[0] == "maniac:"@[0]);
        }
    }
}

// ---------------------------------------------------------------------------
// Blinds and stacks
// ---------------------------------------------------------------------------

/// The number that `s` stands for, if it fits a stack.
pub open spec fn chips_in(s: Seq<char>) -> Option<u32> {
    match text::number_in(s) {
        Some(n) => if n <= u32::MAX {
            Some(n as u32)
        } else {
            None
        },
        None => None,
    }
}

fn parse_chips(s: &str) -> (n: Option<u32>)
    ensures
        n == chips_in(s@),
{
    match text::parse_number(s, u32::MAX as u64) {
        Some(n) => Some(n as u32),
        None => None,
    }
}

/// The blinds that `s` names, or what is wrong with it.
pub open spec fn named_blinds(s: Seq<char>) -> Result<(u32, u32), Seq<char>> {
    let at = text::first_of(s, '/');
    if at == s.len() {
        Err("expected small/big format, got '"@ + s + "'"@)
    } else {
        let small = s.take(at);
        let big = s.skip(at + 1);
        match chips_in(text::trimmed(small)) {
            None => Err("invalid small blind '"@ + small + "'"@),
            Some(sb) => match chips_in(text::trimmed(big)) {
                None => Err("invalid big blind '"@ + big + "'"@),
                Some(bb) => if sb == 0 || bb == 0 || sb >= bb {
                    Err(
                        "blinds must satisfy 0 < sb < bb, got "@ + text::decimal(sb as nat) + "/"@
                            + text::decimal(bb as nat),
                    )
                } else {
                    Ok((sb, bb))
                },
            },
        }
    }
}

fn quoted(before: &str, s: &str) -> (msg: String)
    ensures
        msg@ == before@ + s@ + "'"@,
{
    let mut msg = before.to_owned();
    msg.append(s);
    msg.append("'");
    msg
}

/// Reads blind levels written as small/big.
pub fn parse_blinds(s: &str) -> (r: Result<(u32, u32), String>)
    ensures
        says(r, named_blinds(s@)),
{
    let (small, rest) = text::split_once(s, '/');
    let big = match rest {
        None => {
            return Err(quoted("expected small/big format, got '", s));
        },
        Some(big) => big,
    };
    let sb: u32 = match parse_chips(text::trim(small)) {
        None => {
            return Err(quoted("invalid small blind '", small));
        },
        Some(sb) => sb,
    };
    let bb: u32 = match parse_chips(text::trim(big)) {
        None => {
            return Err(quoted("invalid big blind '", big));
        },
        Some(bb) => bb,
    };
    if sb == 0 || bb == 0 || sb >= bb {
        let mut msg = "blinds must satisfy 0 < sb < bb, got ".to_owned();
        text::push_decimal(&mut msg, sb as u64);
        msg.append("/");
        text::push_decimal(&mut msg, bb as u64);
        assert(msg@ =~= "blinds must satisfy 0 < sb < bb, got "@ + text::decimal(sb as nat) + "/"@
            + text::decimal(bb as nat));
        return Err(msg);
    }
    Ok((sb, bb))
}

/// The stacks that `parts` name, or what is wrong with the first that names none.
pub open spec fn named_stacks(parts: Seq<Seq<char>>) -> Result<Seq<u32>, Seq<char>>
    decreases parts.len(),
{
    if parts.len() == 0 {
        Ok(Seq::empty())
    } else {
        match named_stacks(parts.drop_last()) {
            Err(msg) => Err(msg),
            Ok(stacks) => match chips_in(text::trimmed(parts.last())) {
                Some(n) => Ok(stacks.push(n)),
                None => Err("invalid stack value '"@ + parts.last() + "' in --stacks"@),
            },
        }
    }
}

/// One stack for each of `n` agents, or what is wrong.
pub open spec fn seated_stacks(s: Seq<char>, n: int) -> Result<Seq<u32>, Seq<char>> {
    match named_stacks(text::cut(s, ',')) {
        Err(msg) => Err(msg),
        Ok(stacks) => if stacks.len() != n {
            Err(
                "--stacks has "@ + text::decimal(stacks.len()) + " values but there are "@
                    + text::decimal(n as nat) + " agents"@,
            )
        } else {
            Ok(stacks)
        },
    }
}

proof fn first_bad_stack_stays(parts: Seq<Seq<char>>, i: int)
    requires
        0 <= i <= parts.len(),
        named_stacks(parts.take(i)) is Err,
    ensures
        named_stacks(parts) == named_stacks(parts.take(i)),
    decreases parts.len() - i,
{
    if i == parts.len() {
        assert(parts.take(i) =~= parts);
    } else {
        assert(parts.take(i + 1).drop_last() =~= parts.take(i));
        first_bad_stack_stays(parts, i + 1);
    }
}

/// Reads one starting stack for each of `n` agents.
pub fn parse_stacks(s: &str, n: usize) -> (r: Result<Vec<u32>, String>)
    ensures
        match seated_stacks(s@, n as int) {
            Ok(stacks) => r matches Ok(v) && v@ == stacks,
            Err(msg) => r matches Err(m) && m@ == msg,
        },
{
    let parts = text::split(s, ',');
    let ghost all = text::cut(s@, ',');
    let mut stacks: Vec<u32> = Vec::new();
    let mut i: usize = 0;
    assert(all.take(0) =~= Seq::<Seq<char>>::empty());
    while i < parts.len()
        invariant
            i <= parts@.len(),
            all == text::cut(s@, ','),
            text::texts(parts@) == all,
            named_stacks(all.take(i as int)) == Ok::<Seq<u32>, Seq<char>>(stacks@),
        decreases parts@.len() - i,
    {
        let part = parts[i];
        proof {
            assert(all[i as int] == part@);
            assert(all.take(i + 1).drop_last() =~= all.take(i as int));
        }
        match parse_chips(text::trim(part)) {
            None => {
                let mut msg = "invalid stack value '".to_owned();
                msg.append(part);
                msg.append("' in --stacks");
                assert(msg@ =~= "invalid stack value '"@ + part@ + "' in --stacks"@);
                proof {
                    first_bad_stack_stays(all, i + 1);
                }
                return Err(msg);
            },
            Some(chips) => stacks.push(chips),
        }
        i = i + 1;
    }
    assert(all.take(i as int) =~= all);
    if stacks.len() != n {
        let mut msg = "--stacks has ".to_owned();
        text::push_decimal(&mut msg, stacks.len() as u64);
        msg.append(" values but there are ");
        text::push_decimal(&mut msg, n as u64);
        msg.append(" agents");
        assert(msg@ =~= "--stacks has "@ + text::decimal(stacks@.len()) + " values but there are "@
            + text::decimal(n as nat) + " agents"@);
        return Err(msg);
    }
    Ok(stacks)
}

/// The stacks in decimal.
pub open spec fn stack_texts(stacks: Seq<u32>) -> Seq<Seq<char>> {
    Seq::new(stacks.len(), |i: int| text::decimal(stacks[i] as nat))
}

/// All stacks are the same.
pub open spec fn uniform(stacks: Seq<u32>) -> bool {
    forall|i: int| 0 <= i < stacks.len() ==> #[trigger] stacks[i] == stacks[0]
}

/// How the stacks are labelled: one number if they are all the same, else each of
/// them.
pub fn stack_label(stacks: &Vec<u32>) -> (s: String)
    requires
        stacks@.len() > 0,
    ensures
        s@ == if uniform(stacks@) {
            text::decimal(stacks@[0] as nat)
        } else {
            text::joined(stack_texts(stacks@), "/"@)
        },
{
    let mut same = true;
    let mut i: usize = 0;
    while i < stacks.len()
        invariant
            i <= stacks@.len(),
            stacks@.len() > 0,
            same <==> forall|k: int| 0 <= k < i ==> #[trigger] stacks@[k] == stacks@[0],
        decreases stacks@.len() - i,
    {
        if stacks[i] != stacks[0] {
            same = false;
        }
        i = i + 1;
    }
    if same {
        return text::number(stacks[0] as u64);
    }
    let mut s = String::new();
    let ghost parts = stack_texts(stacks@);
    let mut i: usize = 0;
    assert(s@ =~= text::joined(parts.take(0), "/"@));
    while i < stacks.len()
        invariant
            i <= stacks@.len(),
            parts == stack_texts(stacks@),
            s@ == text::joined(parts.take(i as int), "/"@),
        decreases stacks@.len() - i,
    {
        assert(parts.take(i + 1).drop_last() =~= parts.take(i as int));
        if i > 0 {
            s.append("/");
        }
        text::push_decimal(&mut s, stacks[i] as u64);
        assert(s@ =~= text::joined(parts.take(i + 1), "/"@));
        i = i + 1;
    }
    assert(parts.take(i as int) =~= parts);
    s
}

// ---------------------------------------------------------------------------
// The trainer's numbers
// ---------------------------------------------------------------------------

/// What is wrong with a pair of numbers, and the text it was found in.
#[derive(Debug)]
pub enum PairError {
    /// There are this many numbers instead of two.
    Count(usize),
    /// The first is no number.
    First(String),
    /// The second is no number.
    Second(String),
}

/// The two numbers in `s`, cut at `c`.
pub open spec fn pair_in(s: Seq<char>, c: char, r: Result<(u32, u32), PairError>) -> bool {
    let parts = text::cut(s, c);
    if parts.len() != 2 {
        r matches Err(PairError::Count(n)) && n == parts.len()
    } else {
        match (chips_in(text::trimmed(parts[0])), chips_in(text::trimmed(parts[1]))) {
            (Some(a), Some(b)) => r == Ok::<(u32, u32), PairError>((a, b)),
            (None, _) => r matches Err(PairError::First(t)) && t@ == text::trimmed(parts[0]),
            (Some(_), None) => r matches Err(PairError::Second(t)) && t@ == text::trimmed(parts[1]),
        }
    }
}

/// Reads two numbers with `c` between them: stacks with a comma, blinds with a slash.
pub fn parse_pair(s: &str, c: char) -> (r: Result<(u32, u32), PairError>)
    ensures
        pair_in(s@, c, r),
{
    let parts = text::split(s, c);
    assert(text::texts(parts@).len() == parts@.len());
    if parts.len() != 2 {
        return Err(PairError::Count(parts.len()));
    }
    assert(text::texts(parts@)[0] == parts@[0]@ && text::texts(parts@)[1] == parts@[1]@);
    let first = text::trim(parts[0]);
    let second = text::trim(parts[1]);
    match parse_chips(first) {
        None => Err(PairError::First(first.to_owned())),
        Some(a) => match parse_chips(second) {
            None => Err(PairError::Second(second.to_owned())),
            Some(b) => Ok((a, b)),
        },
    }
}

} // verus!
