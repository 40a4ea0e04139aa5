//! The deterministic pseudo-random generator behind synthetic commits, and the
//! commit messages and timestamps drawn from it.
use vstd::prelude::*;

verus! {

/// One xorshift64 step (shifts 13, 7, 17): the state that follows `x`.
pub open spec fn xorshift(x: u64) -> u64 {
    let a = x ^ (x << 13u64);
    let b = a ^ (a >> 7u64);
    b ^ (b << 17u64)
}

/// A xorshift64 step never reaches the all-zero state from a nonzero one, so
/// a generator seeded with a nonzero value never gets stuck at zero.
pub proof fn lemma_xorshift_preserves_nonzero(x: u64)
    requires
        x != 0,
    ensures
        xorshift(x) != 0,
{
    let a = x ^ (x << 13u64);
    assert(x != 0 ==> x ^ (x << 13u64) != 0) by (bit_vector);
    let b = a ^ (a >> 7u64);
    assert(a != 0 ==> a ^ (a >> 7u64) != 0) by (bit_vector);
    assert(b != 0 ==> b ^ (b << 17u64) != 0) by (bit_vector);
}

/// Why a generator could not be made.
#[derive(Debug, Clone, Copy, PartialEq, Eq)]
pub enum RngError {
    /// A zero seed would leave the xorshift state at zero forever.
    ZeroSeed,
}

/// A deterministic xorshift64 pseudo-random generator; its state is never zero.
pub struct Rng {
    state: u64,
}

impl View for Rng {
    type V = u64;

    closed spec fn view(&self) -> u64 {
        self.state
    }
}

/// The value `Rng::usize(max)` returns from state `s`, and the state after it.
pub open spec fn draw(s: u64, max: nat) -> (nat, u64) {
    ((xorshift(s) % (max as u64)) as nat, xorshift(s))
}

impl Rng {
    #[verifier::type_invariant]
    spec fn state_is_nonzero(&self) -> bool {
        self.state != 0
    }

    /// A generator started from `seed`; a zero seed is refused.
    pub fn new(seed: u64) -> (r: Result<Rng, RngError>)
        ensures
            seed == 0 <==> r is Err,
            r matches Ok(g) ==> g@ == seed,
            r matches Err(e) ==> e == RngError::ZeroSeed,
    {
        if seed == 0 {
            Err(RngError::ZeroSeed)
        } else {
            Ok(Rng { state: seed })
        }
    }

    /// Advances the state by one xorshift step and returns the new state.
    fn next_u64(&mut self) -> (r: u64)
        ensures
            final(self)@ == xorshift(old(self)@),
            r == final(self)@,
            r != 0,
    {
        proof {
            use_type_invariant(&*self);
            lemma_xorshift_preserves_nonzero(self.state);
        }
        let x = self.state;
        let a = x ^ (x << 13u64);
        let b = a ^ (a >> 7u64);
        let c = b ^ (b << 17u64);
        self.state = c;
        c
    }

    /// A value below `max`: the next state modulo `max`.
    pub fn usize(&mut self, max: usize) -> (r: usize)
        requires
            max > 0,
        ensures
            (r as nat, final(self)@) == draw(old(self)@, max as nat),
            r < max,
    {
        let x = self.next_u64();
        (x % (max as u64)) as usize
    }

    /// The item at index `usize(items.len())`.
    pub fn pick<'a>(&mut self, items: &'a [&str]) -> (r: &'a str)
        requires
            items@.len() > 0,
        ensures
            final(self)@ == draw(old(self)@, items@.len()).1,
            r == items@[draw(old(self)@, items@.len()).0 as int],
    {
        let i = self.usize(items.len());
        items[i]
    }
}

/// The characters of each text in a list.
pub open spec fn str_texts(v: Seq<&str>) -> Seq<Seq<char>> {
    Seq::new(v.len(), |i: int| v[i]@)
}

/// Conventional-commit types a synthetic message starts with.
pub open spec fn commit_type_words() -> Seq<Seq<char>> {
    seq!["feat"@, "fix"@, "refactor"@, "perf"@, "chore"@, "docs"@, "ci"@, "test"@]
}

/// Verbs of synthetic commit messages.
pub open spec fn verb_words() -> Seq<Seq<char>> {
    seq![
        "update"@,
        "add"@,
        "remove"@,
        "refactor"@,
        "improve"@,
        "fix"@,
        "handle"@,
        "support"@,
        "implement"@,
        "optimize"@,
    ]
}

/// Objects of synthetic commit messages.
pub open spec fn object_words() -> Seq<Seq<char>> {
    seq![
        "feature"@,
        "endpoint"@,
        "handler"@,
        "logic"@,
        "validation"@,
        "error"@,
        "check"@,
        "flow"@,
        "config"@,
        "output"@,
    ]
}

/// Conventional-commit types a synthetic message starts with.
pub fn commit_types() -> (v: Vec<&'static str>)
    ensures
        str_texts(v@) == commit_type_words(),
{
    let v = vec!["feat", "fix", "refactor", "perf", "chore", "docs", "ci", "test"];
    assert(str_texts(v@) =~= commit_type_words());
    v
}

/// Verbs of synthetic commit messages.
pub fn verbs() -> (v: Vec<&'static str>)
    ensures
        str_texts(v@) == verb_words(),
{
    let v = vec![
        "update",
        "add",
        "remove",
        "refactor",
        "improve",
        "fix",
        "handle",
        "support",
        "implement",
        "optimize",
    ];
    assert(str_texts(v@) =~= verb_words());
    v
}

/// Objects of synthetic commit messages.
pub fn objects() -> (v: Vec<&'static str>)
    ensures
        str_texts(v@) == object_words(),
{
    let v = vec![
        "feature",
        "endpoint",
        "handler",
        "logic",
        "validation",
        "error",
        "check",
        "flow",
        "config",
        "output",
    ];
    assert(str_texts(v@) =~= object_words());
    v
}

/// The synthetic message drawn from state `s` for `scope`, and the state after
/// it: `type(scope)!: verb object`, where the `!` comes one time in twenty.
pub open spec fn spec_rand_message(s: u64, scope: Seq<char>) -> (Seq<char>, u64) {
    let (ti, s1) = draw(s, 8);
    let (bi, s2) = draw(s1, 20);
    let (vi, s3) = draw(s2, 10);
    let (oi, s4) = draw(s3, 10);
    let bang = if bi == 0 {
        "!"@
    } else {
        Seq::<char>::empty()
    };
    (commit_type_words()[ti as int] + "("@ + scope + ")"@ + bang + ": "@ + verb_words()[vi as int]
        + " "@ + object_words()[oi as int], s4)
}

/// A synthetic conventional-commit message for `scope`.
pub fn rand_message(rng: &mut Rng, scope: &str) -> (m: String)
    ensures
        (m@, final(rng)@) == spec_rand_message(old(rng)@, scope@),
{
    let types = commit_types();
    assert(str_texts(types@).len() == 8);
    let t = rng.pick(types.as_slice());
    let bang = rng.usize(20) == 0;
    let ghost s2 = rng@;
    let vs = verbs();
    assert(str_texts(vs@).len() == 10);
    let a = rng.pick(vs.as_slice());
    let ghost s3 = rng@;
    let os = objects();
    assert(str_texts(os@).len() == 10);
    let b = rng.pick(os.as_slice());
    let mut m = String::from_str(t);
    m.append("(");
    m.append(scope);
    m.append(")");
    if bang {
        m.append("!");
    }
    m.append(": ");
    m.append(a);
    m.append(" ");
    m.append(b);
    proof {
        assert(str_texts(types@)[draw(old(rng)@, 8).0 as int] == t@);
        assert(str_texts(vs@)[draw(s2, 10).0 as int] == a@);
        assert(str_texts(os@)[draw(s3, 10).0 as int] == b@);
    }
    m
}

/// The offset in seconds drawn from state `s` (days below 365, hours below 24,
/// minutes below 60), and the state after it.
pub open spec fn spec_time_offset(s: u64) -> (int, u64) {
    let (days, s1) = draw(s, 365);
    let (hours, s2) = draw(s1, 24);
    let (mins, s3) = draw(s2, 60);
    ((days * 86400 + hours * 3600 + mins * 60) as int, s3)
}

/// The largest offset `spec_time_offset` can draw.
pub open spec fn max_time_offset() -> int {
    364int * 86400 + 23 * 3600 + 59 * 60
}

/// A commit time (in seconds since the epoch, UTC) up to a year before `now`.
pub fn rand_time(rng: &mut Rng, now: i64) -> (t: i64)
    requires
        now >= i64::MIN + max_time_offset(),
    ensures
        t == now - spec_time_offset(old(rng)@).0,
        final(rng)@ == spec_time_offset(old(rng)@).1,
        now - max_time_offset() <= t <= now,
{
    let days = rng.usize(365) as i64;
    let hours = rng.usize(24) as i64;
    let mins = rng.usize(60) as i64;
    let offset = days * 86400 + hours * 3600 + mins * 60;
    now - offset
}


/// The generator state `n` steps after `s`.
pub open spec fn xorshift_n(s: u64, n: nat) -> u64
    decreases n,
{
    if n == 0 {
        s
    } else {
        xorshift(xorshift_n(s, (n - 1) as nat))
    }
}

/// The commit type of the message drawn from state `s`: the first step's
/// value picks one of the eight types.
pub open spec fn message_type(s: u64) -> Seq<char> {
    commit_type_words()[(xorshift_n(s, 1) % 8) as int]
}

/// Where the character after `type(scope)` stands in a message drawn from
/// state `s`.
pub open spec fn after_scope(s: u64, scope: Seq<char>) -> int {
    (message_type(s).len() + scope.len() + 2) as int
}

/// A synthetic message starts with `type(scope)`, and the character right
/// after it is the breaking-change mark `!` exactly when the second step's
/// value is a multiple of 20 (one state in twenty); the message takes four
/// steps of the generator.
pub proof fn lemma_message_breaking_mark(s: u64, scope: Seq<char>)
    ensures
        spec_rand_message(s, scope).0.len() > after_scope(s, scope),
        spec_rand_message(s, scope).0.subrange(0, after_scope(s, scope)) == message_type(s) + "("@
            + scope + ")"@,
        (spec_rand_message(s, scope).0[after_scope(s, scope)] == '!') <==> (xorshift_n(s, 2) % 20
            == 0),
        spec_rand_message(s, scope).1 == xorshift_n(s, 4),
{
    reveal_strlit("(");
    reveal_strlit(")");
    reveal_strlit("!");
    reveal_strlit(": ");
    reveal_with_fuel(xorshift_n, 5);
    let m = spec_rand_message(s, scope).0;
    let t = message_type(s);
    let k = after_scope(s, scope);
    let head = t + "("@ + scope + ")"@;
    assert(head.len() == k);
    let bang = xorshift_n(s, 2) % 20 == 0;
    let b = if bang {
        "!"@
    } else {
        Seq::<char>::empty()
    };
    assert(draw(s, 8).0 == xorshift_n(s, 1) % 8);
    assert(draw(draw(s, 8).1, 20).0 == xorshift_n(s, 2) % 20);
    let rest = ": "@ + verb_words()[(xorshift_n(s, 3) % 10) as int] + " "@ + object_words()[(
    xorshift_n(s, 4) % 10) as int];
    assert(m =~= head + b + rest);
    assert(m.subrange(0, k) =~= head);
    if bang {
        assert(m[k] == '!');
    } else {
        assert(m[k] == ':');
    }
}

} // verus!
