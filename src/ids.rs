//! Identifiers derived by fixed naming rules: projectile ids, the ids of their
//! mirror entities, and the decimal rendering they are built from.
use vstd::prelude::*;
use vstd::string::StringExecFns;

verus! {

pub open spec fn digit_char(d: nat) -> char {
    if d == 0 {
        '0'
    } else if d == 1 {
        '1'
    } else if d == 2 {
        '2'
    } else if d == 3 {
        '3'
    } else if d == 4 {
        '4'
    } else if d == 5 {
        '5'
    } else if d == 6 {
        '6'
    } else if d == 7 {
        '7'
    } else if d == 8 {
        '8'
    } else {
        '9'
    }
}

/// The decimal rendering of `n`, without leading zeros.
pub open spec fn decimal(n: nat) -> Seq<char>
    decreases n,
{
    if n < 10 {
        seq![digit_char(n)]
    } else {
        decimal(n / 10).push(digit_char(n % 10))
    }
}

/// `p<tick>_<counter>`: the id of the projectile fired at `tick` as the
/// `counter`-th projectile of the engine.
pub open spec fn projectile_id(tick: nat, counter: nat) -> Seq<char> {
    seq!['p'] + decimal(tick) + seq!['_'] + decimal(counter)
}

pub open spec fn mirror_prefix() -> Seq<char> {
    seq!['e', '_', 'p', 'r', 'o', 'j', '_']
}

/// `e_proj_<pid>`: the id of the entity mirroring projectile `pid`.
pub open spec fn mirror_id(pid: Seq<char>) -> Seq<char> {
    mirror_prefix() + pid
}

/// `projectile/<weapon>`: the archetype of a mirror entity.
pub open spec fn projectile_archetype(weapon: Seq<char>) -> Seq<char> {
    seq!['p', 'r', 'o', 'j', 'e', 'c', 't', 'i', 'l', 'e', '/'] + weapon
}

proof fn lemma_digit_char(d: nat)
    requires
        d < 10,
    ensures
        digit_char(d) != '_',
        forall|e: nat| e < 10 && digit_char(e) == digit_char(d) ==> e == d,
{
}

pub proof fn lemma_decimal_digits(n: nat)
    ensures
        decimal(n).len() >= 1,
        forall|i: int| 0 <= i < decimal(n).len() ==> decimal(n)[i] != '_',
    decreases n,
{
    if n >= 10 {
        lemma_decimal_digits(n / 10);
        lemma_digit_char(n % 10);
    } else {
        lemma_digit_char(n);
    }
}

pub proof fn lemma_decimal_injective(a: nat, b: nat)
    requires
        decimal(a) == decimal(b),
    ensures
        a == b,
    decreases a,
{
    lemma_decimal_digits(a);
    lemma_decimal_digits(b);
    if a < 10 && b < 10 {
        assert(decimal(a)[0] == digit_char(a));
        assert(decimal(b)[0] == digit_char(b));
        lemma_digit_char(a);
    } else if a >= 10 && b >= 10 {
        lemma_decimal_digits(a / 10);
        lemma_decimal_digits(b / 10);
        assert(decimal(a / 10) =~= decimal(a).drop_last());
        assert(decimal(b / 10) =~= decimal(b).drop_last());
        lemma_decimal_injective(a / 10, b / 10);
        assert(decimal(a).last() == digit_char(a % 10));
        assert(decimal(b).last() == digit_char(b % 10));
        lemma_digit_char(a % 10);
        assert(a == 10 * (a / 10) + a % 10);
        assert(b == 10 * (b / 10) + b % 10);
    } else if a >= 10 {
        lemma_decimal_digits(a / 10);
        assert(decimal(a).len() >= 2);
    } else {
        lemma_decimal_digits(b / 10);
        assert(decimal(b).len() >= 2);
    }
}

/// Two projectile ids that are equal were made with the same counter.
pub proof fn lemma_projectile_id_counter(t1: nat, c1: nat, t2: nat, c2: nat)
    requires
        projectile_id(t1, c1) == projectile_id(t2, c2),
    ensures
        c1 == c2,
{
    let s = projectile_id(t1, c1);
    let d1 = decimal(c1);
    let d2 = decimal(c2);
    lemma_decimal_digits(c1);
    lemma_decimal_digits(c2);
    lemma_decimal_digits(t1);
    lemma_decimal_digits(t2);
    let n = s.len();
    assert(s.subrange(n - d1.len(), n as int) =~= d1);
    assert(projectile_id(t2, c2).subrange(n - d2.len(), n as int) =~= d2);
    if d1.len() < d2.len() {
        assert(s[n - d1.len() - 1] == '_');
        assert(projectile_id(t2, c2)[n - d1.len() - 1] == d2[d2.len() - d1.len() - 1]);
    } else if d2.len() < d1.len() {
        assert(projectile_id(t2, c2)[n - d2.len() - 1] == '_');
        assert(s[n - d2.len() - 1] == d1[d1.len() - d2.len() - 1]);
    } else {
        assert(d1 =~= d2);
        lemma_decimal_injective(c1, c2);
    }
}

pub proof fn lemma_mirror_injective(a: Seq<char>, b: Seq<char>)
    requires
        mirror_id(a) == mirror_id(b),
    ensures
        a == b,
{
    assert(a =~= mirror_id(a).subrange(7, mirror_id(a).len() as int));
    assert(b =~= mirror_id(b).subrange(7, mirror_id(b).len() as int));
}

fn digit_str(d: u64) -> (r: &'static str)
    requires
        d < 10,
    ensures
        r@ == seq![digit_char(d as nat)],
{
    if d == 0 {
        proof { reveal_strlit("0"); }
        "0"
    } else if d == 1 {
        proof { reveal_strlit("1"); }
        "1"
    } else if d == 2 {
        proof { reveal_strlit("2"); }
        "2"
    } else if d == 3 {
        proof { reveal_strlit("3"); }
        "3"
    } else if d == 4 {
        proof { reveal_strlit("4"); }
        "4"
    } else if d == 5 {
        proof { reveal_strlit("5"); }
        "5"
    } else if d == 6 {
        proof { reveal_strlit("6"); }
        "6"
    } else if d == 7 {
        proof { reveal_strlit("7"); }
        "7"
    } else if d == 8 {
        proof { reveal_strlit("8"); }
        "8"
    } else {
        proof { reveal_strlit("9"); }
        "9"
    }
}

/// Renders `n` in decimal.
pub fn decimal_string(n: u64) -> (r: String)
    ensures
        r@ == decimal(n as nat),
    decreases n,
{
    if n < 10 {
        let mut s = String::new();
        s.append(digit_str(n));
        assert(s@ =~= decimal(n as nat));
        s
    } else {
        let mut s = decimal_string(n / 10);
        s.append(digit_str(n % 10));
        assert(s@ =~= decimal(n as nat));
        s
    }
}

pub fn projectile_id_string(tick: u64, counter: u64) -> (r: String)
    ensures
        r@ == projectile_id(tick as nat, counter as nat),
{
    let mut s = String::new();
    proof { reveal_strlit("p"); reveal_strlit("_"); }
    s.append("p");
    let t = decimal_string(tick);
    s.append(t.as_str());
    s.append("_");
    let c = decimal_string(counter);
    s.append(c.as_str());
    assert(s@ =~= projectile_id(tick as nat, counter as nat));
    s
}

pub fn mirror_id_string(pid: &String) -> (r: String)
    ensures
        r@ == mirror_id(pid@),
{
    let mut s = String::new();
    proof { reveal_strlit("e_proj_"); }
    s.append("e_proj_");
    s.append(pid.as_str());
    assert(s@ =~= mirror_id(pid@));
    s
}

pub fn projectile_archetype_string(weapon: &String) -> (r: String)
    ensures
        r@ == projectile_archetype(weapon@),
{
    let mut s = String::new();
    proof { reveal_strlit("projectile/"); }
    s.append("projectile/");
    s.append(weapon.as_str());
    assert(s@ =~= projectile_archetype(weapon@));
    s
}

} // verus!
