use vstd::prelude::*;

verus! {

pub open spec fn is_digit(c: char) -> bool {
    '0' <= c <= '9'
}

/// The number that a run of decimal digits writes, most significant first.
pub open spec fn digits_value(d: Seq<char>) -> nat
    decreases d.len(),
{
    if d.len() == 0 {
        0
    } else {
        digits_value(d.drop_last()) * 10 + (d.last() as nat - '0' as nat) as nat
    }
}

/// A text with one leading `+` taken off, if it has one.
pub open spec fn unsigned_digits(s: Seq<char>) -> Seq<char> {
    if s.len() > 0 && s[0] == '+' {
        s.drop_first()
    } else {
        s
    }
}

pub open spec fn all_digits(d: Seq<char>) -> bool {
    forall|i: int| 0 <= i < d.len() ==> is_digit(#[trigger] d[i])
}

/// The number that a text writes in decimal: an optional `+`, then one or
/// more digits, leading zeros allowed. `None` for any other text.
pub open spec fn unsigned_value(s: Seq<char>) -> Option<nat> {
    let d = unsigned_digits(s);
    if d.len() > 0 && all_digits(d) {
        Some(digits_value(d))
    } else {
        None
    }
}

/// A port number: a decimal number that fits in 16 bits.
pub open spec fn port_of(s: Seq<char>) -> Option<u16> {
    match unsigned_value(s) {
        Some(v) => if v <= u16::MAX {
            Some(v as u16)
        } else {
            None
        },
        None => None,
    }
}

/// A buffer size: a decimal number that is positive and fits in `usize`.
pub open spec fn buffer_size_of(s: Seq<char>) -> Option<usize> {
    match unsigned_value(s) {
        Some(v) => if 0 < v <= usize::MAX {
            Some(v as usize)
        } else {
            None
        },
        None => None,
    }
}

/// The characters of a text, in order.
fn chars_of(s: &str) -> (r: Vec<char>)
    ensures
        r@ == s@,
{
    let mut v: Vec<char> = Vec::new();
    for c in it: s.chars()
        invariant
            v@ == it.seq().take(it.index() as int),
    {
        v.push(c);
    }
    v
}

proof fn lemma_digits_value_grows(d: Seq<char>, k: int)
    requires
        0 <= k <= d.len(),
    ensures
        digits_value(d.take(k)) <= digits_value(d),
    decreases d.len() - k,
{
    if k < d.len() {
        lemma_digits_value_grows(d, k + 1);
        assert(d.take(k + 1).drop_last() =~= d.take(k));
    } else {
        assert(d.take(k) =~= d);
    }
}

/// The decimal number that the characters write, when it is at most `max`.
fn parse_unsigned(c: &Vec<char>, max: u64) -> (r: Option<u64>)
    ensures
        r == (match unsigned_value(c@) {
            Some(v) => if v <= max {
                Some(v as u64)
            } else {
                None
            },
            None => None,
        }),
{
    let start: usize = if c.len() > 0 && c[0] == '+' { 1 } else { 0 };
    let ghost d = unsigned_digits(c@);
    assert(d =~= c@.skip(start as int));
    if start >= c.len() {
        return None;
    }
    let mut acc: u64 = 0;
    let mut i: usize = start;
    while i < c.len()
        invariant
            start <= i <= c.len(),
            d =~= c@.skip(start as int),
            d == unsigned_digits(c@),
            acc <= max,
            acc == digits_value(d.take(i - start)),
            forall|j: int| 0 <= j < i - start ==> is_digit(#[trigger] d[j]),
        decreases c.len() - i,
    {
        let ch = c[i];
        assert(d[i - start] == ch);
        if !('0' <= ch && ch <= '9') {
            assert(!all_digits(d));
            return None;
        }
        let next: u128 = acc as u128 * 10 + (ch as u32 - '0' as u32) as u128;
        proof {
            let k = (i - start) as int;
            assert(d.take(k + 1).drop_last() =~= d.take(k));
            assert(d.take(k + 1).last() == ch);
            assert(digits_value(d.take(k + 1)) == next);
        }
        if next > max as u128 {
            proof {
                let k = (i - start) as int;
                lemma_digits_value_grows(d, k + 1);

            }
            return None;
        }
        acc = next as u64;
        i = i + 1;
    }
    assert(d.take(d.len() as int) =~= d);
    Some(acc)
}

/// The port number that a text writes in decimal, if it is one.
pub fn parse_port(s: &str) -> (r: Option<u16>)
    ensures
        r == port_of(s@),
{
    let c = chars_of(s);
    match parse_unsigned(&c, 65535) {
        Some(v) => Some(v as u16),
        None => None,
    }
}

/// The buffer size that a text writes in decimal, if it is a positive one.
pub fn parse_buffer_size(s: &str) -> (r: Option<usize>)
    ensures
        r == buffer_size_of(s@),
{
    let c = chars_of(s);
    match parse_unsigned(&c, usize::MAX as u64) {
        Some(v) => if v > 0 {
            Some(v as usize)
        } else {
            None
        },
        None => None,
    }
}

/// The index of the first `=` at or after `from`, or the length of the text
/// when there is none.
pub open spec fn next_eq(s: Seq<char>, from: int) -> int
    decreases s.len() - from,
{
    if from < 0 || from >= s.len() {
        s.len() as int
    } else if s[from] == '=' {
        from
    } else {
        next_eq(s, from + 1)
    }
}

/// The two fields of a forwarding argument `bind=server`: the text before
/// the first `=` and the text after it up to the next `=`, if any (what
/// follows that is ignored). `None` when the text holds no `=`.
pub open spec fn forward_parts(s: Seq<char>) -> Option<(Seq<char>, Seq<char>)> {
    let i = next_eq(s, 0);
    if i == s.len() {
        None
    } else {
        Some((s.subrange(0, i), s.subrange(i + 1, next_eq(s, i + 1))))
    }
}

proof fn lemma_next_eq_bounds(s: Seq<char>, from: int)
    requires
        0 <= from <= s.len(),
    ensures
        from <= next_eq(s, from) <= s.len(),
        next_eq(s, from) < s.len() ==> s[next_eq(s, from)] == '=',
    decreases s.len() - from,
{
    if from < s.len() && s[from] != '=' {
        lemma_next_eq_bounds(s, from + 1);
    }
}

/// Relies on String::push: appends the character at the end.
#[verifier::external_body]
fn push_char(s: &mut String, c: char)
    ensures
        final(s)@ == old(s)@.push(c),
{
    s.push(c)
}

/// The index of the first `=` at or after `from`, or the length.
fn find_eq(c: &Vec<char>, from: usize) -> (r: usize)
    requires
        from <= c.len(),
    ensures
        r == next_eq(c@, from as int),
{
    let mut j: usize = from;
    while j < c.len() && c[j] != '='
        invariant
            from <= j <= c.len(),
            next_eq(c@, j as int) == next_eq(c@, from as int),
        decreases c.len() - j,
    {
        j = j + 1;
    }
    j
}

/// The characters from `lo` up to `hi`, as a string.
fn text_between(c: &Vec<char>, lo: usize, hi: usize) -> (r: String)
    requires
        lo <= hi <= c.len(),
    ensures
        r@ == c@.subrange(lo as int, hi as int),
{
    let mut r = String::new();
    let mut k: usize = lo;
    while k < hi
        invariant
            lo <= k <= hi <= c.len(),
            r@ == c@.subrange(lo as int, k as int),
        decreases hi - k,
    {
        push_char(&mut r, c[k]);
        k = k + 1;
        assert(r@ =~= c@.subrange(lo as int, k as int));
    }
    r
}

/// Splits a forwarding argument `bind=server` into its two fields.
pub fn parse_forward_arg(arg: &str) -> (r: Option<(String, String)>)
    ensures
        r is None <==> forward_parts(arg@) is None,
        r matches Some((a, b)) ==> forward_parts(arg@) == Some((a@, b@)),
{
    let c = chars_of(arg);
    let i = find_eq(&c, 0);
    if i == c.len() {
        return None;
    }
    proof {
        lemma_next_eq_bounds(c@, 0);
    }
    let k = find_eq(&c, i + 1);
    proof {
        lemma_next_eq_bounds(c@, i + 1);
    }
    Some((text_between(&c, 0, i), text_between(&c, i + 1, k)))
}

/// Where a rule listens: a bare port, on all interfaces, or an address
/// written out in full (still to be read as a socket address).
#[derive(Clone, Debug, PartialEq, Eq)]
pub enum BindAddr {
    AnyInterface(u16),
    Address(String),
}

/// What a bind field stands for: a port when it writes one, else an address.
pub open spec fn bind_matches(b: BindAddr, text: Seq<char>) -> bool {
    match port_of(text) {
        Some(p) => b == BindAddr::AnyInterface(p),
        None => b matches BindAddr::Address(a) && a@ == text,
    }
}

/// Reads the bind field of a rule: a bare port number means that port on all
/// interfaces; anything else is taken as a full address.
pub fn parse_src_addr(addr: &str) -> (r: BindAddr)
    ensures
        bind_matches(r, addr@),
{
    match parse_port(addr) {
        Some(p) => BindAddr::AnyInterface(p),
        None => BindAddr::Address(addr.to_owned()),
    }
}

/// A forwarding rule as written on the command line: the bind field read,
/// the server field still to be resolved.
#[derive(Clone, Debug, PartialEq, Eq)]
pub struct RuleSpec {
    pub bind: BindAddr,
    pub server: String,
    pub buffer_size: usize,
}

/// Why a set of rules was refused.
#[derive(Clone, Copy, Debug, PartialEq, Eq, Structural)]
pub enum ConfigError {
    /// The buffer size is not a positive decimal number that fits in `usize`.
    InvalidBufferSize,
    /// The forwarding argument at this index holds no `=`.
    MalformedForward(usize),
}

/// The rule that a forwarding argument gives with this buffer size.
pub open spec fn rule_matches(r: RuleSpec, arg: Seq<char>, size: usize) -> bool {
    match forward_parts(arg) {
        Some((b, srv)) => bind_matches(r.bind, b) && r.server@ == srv && r.buffer_size == size,
        None => false,
    }
}

/// Builds the rule set, one rule per forwarding argument and in their order,
/// all with the one buffer size. The buffer size is checked first, then the
/// arguments in order; the first fault found is returned.
pub fn parse_rules(forwards: &Vec<String>, buffer_size: &str) -> (r: Result<Vec<RuleSpec>, ConfigError>)
    ensures
        buffer_size_of(buffer_size@) is None ==> r == Err::<Vec<RuleSpec>, ConfigError>(
            ConfigError::InvalidBufferSize,
        ),
        r is Ok <==> buffer_size_of(buffer_size@) is Some && forall|i: int|
            0 <= i < forwards.len() ==> forward_parts(#[trigger] forwards[i]@) is Some,
        r matches Ok(v) ==> v.len() == forwards.len() && forall|i: int|
            0 <= i < forwards.len() ==> rule_matches(
                #[trigger] v[i],
                forwards[i]@,
                buffer_size_of(buffer_size@)->0,
            ),
        r matches Err(ConfigError::MalformedForward(i)) ==> buffer_size_of(buffer_size@) is Some
            && i < forwards.len() && forward_parts(forwards[i as int]@) is None && forall|j: int|
            0 <= j < i ==> forward_parts(#[trigger] forwards[j]@) is Some,
{
    let size = match parse_buffer_size(buffer_size) {
        Some(n) => n,
        None => {
            return Err(ConfigError::InvalidBufferSize);
        },
    };
    let mut rules: Vec<RuleSpec> = Vec::new();
    let mut i: usize = 0;
    while i < forwards.len()
        invariant
            i <= forwards.len(),
            buffer_size_of(buffer_size@) == Some(size),
            rules.len() == i,
            forall|j: int| 0 <= j < i ==> forward_parts(#[trigger] forwards[j]@) is Some,
            forall|j: int| 0 <= j < i ==> rule_matches(#[trigger] rules[j], forwards[j]@, size),
        decreases forwards.len() - i,
    {
        match parse_forward_arg(forwards[i].as_str()) {
            Some((bind, server)) => {
                let b = parse_src_addr(bind.as_str());
                rules.push(RuleSpec { bind: b, server, buffer_size: size });
            },
            None => {
                return Err(ConfigError::MalformedForward(i));
            },
        }
        i = i + 1;
    }
    Ok(rules)
}

} // verus!
