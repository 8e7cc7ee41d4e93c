//! Password policies and password generation.

use crate::random::RandomSource;
use crate::text::{chars_of, string_from_chars};
use vstd::prelude::*;

verus! {

/// The length of a generated password when none is asked for.
pub const DEFAULT_PASSWORD_LENGTH: usize = 24;

/// The lowercase character class.
pub const LOWERCASE: &'static str = "abcdefghijklmnopqrstuvwxyz";

/// The uppercase character class.
pub const UPPERCASE: &'static str = "ABCDEFGHIJKLMNOPQRSTUVWXYZ";

/// The digit character class.
pub const NUMBERS: &'static str = "0123456789";

/// The symbol character class.
pub const SYMBOLS: &'static str = "!@#$%^&*()-_=+[]{};:,.?/";

/// Characters that are easily mistaken for one another.
pub const AMBIGUOUS: &'static str = "O0oIl1|";

/// What a generated password must look like.
#[derive(Debug, Clone, Copy, PartialEq, Eq, Structural)]
pub struct PasswordPolicy {
    pub length: usize,
    pub lowercase: bool,
    pub uppercase: bool,
    pub numbers: bool,
    pub symbols: bool,
    pub exclude_ambiguous: bool,
}

/// The password options given on the command line.
#[derive(Debug, Clone, Copy, PartialEq, Eq, Structural)]
pub struct PasswordPolicyArgs {
    pub length: Option<usize>,
    pub alphanumeric: bool,
    pub no_symbols: bool,
    pub no_numbers: bool,
    pub no_uppercase: bool,
    pub no_lowercase: bool,
    pub exclude_ambiguous: bool,
}

/// Why no password could be generated.
#[derive(Debug, Clone, Copy, PartialEq, Eq, Structural)]
pub enum PasswordError {
    /// Zero passwords were asked for.
    ZeroCount,
    /// Every character class is disabled.
    NoCharacterClasses,
    /// An enabled class has no character left once ambiguous ones are removed.
    EmptyCharacterClass,
    /// The length cannot hold one character of each enabled class; `minimum`
    /// is the number of enabled classes.
    LengthTooShort { minimum: usize },
}

/// The policy that the command-line options describe.
pub open spec fn policy_of_args(args: PasswordPolicyArgs) -> PasswordPolicy {
    PasswordPolicy {
        length: match args.length {
            Some(length) => length,
            None => DEFAULT_PASSWORD_LENGTH,
        },
        lowercase: !args.no_lowercase,
        uppercase: !args.no_uppercase,
        numbers: !args.no_numbers,
        symbols: !(args.no_symbols || args.alphanumeric),
        exclude_ambiguous: args.exclude_ambiguous,
    }
}

/// Whether any option departs from the defaults.
pub open spec fn args_are_explicit(args: PasswordPolicyArgs) -> bool {
    ||| args.length is Some
    ||| args.alphanumeric
    ||| args.no_symbols
    ||| args.no_numbers
    ||| args.no_uppercase
    ||| args.no_lowercase
    ||| args.exclude_ambiguous
}

/// The policy used when no option is given: default length, every class,
/// ambiguous characters allowed.
pub open spec fn default_policy() -> PasswordPolicy {
    PasswordPolicy {
        length: DEFAULT_PASSWORD_LENGTH,
        lowercase: true,
        uppercase: true,
        numbers: true,
        symbols: true,
        exclude_ambiguous: false,
    }
}

impl PasswordPolicyArgs {
    /// The policy that these options describe.
    pub fn to_policy(&self) -> (res: PasswordPolicy)
        ensures
            res == policy_of_args(*self),
            self.length is Some ==> res.length == self.length->Some_0,
            self.length is None ==> res.length == DEFAULT_PASSWORD_LENGTH,
            res.lowercase == !self.no_lowercase,
            res.uppercase == !self.no_uppercase,
            res.numbers == !self.no_numbers,
            res.symbols == (!self.no_symbols && !self.alphanumeric),
            res.exclude_ambiguous == self.exclude_ambiguous,
    {
        PasswordPolicy {
            length: match self.length {
                Some(length) => length,
                None => DEFAULT_PASSWORD_LENGTH,
            },
            lowercase: !self.no_lowercase,
            uppercase: !self.no_uppercase,
            numbers: !self.no_numbers,
            symbols: !(self.no_symbols || self.alphanumeric),
            exclude_ambiguous: self.exclude_ambiguous,
        }
    }

    /// Whether any generation option was given explicitly.
    pub fn has_explicit_generation_option(&self) -> (res: bool)
        ensures
            res == args_are_explicit(*self),
            self.length is Some ==> res,
            self.alphanumeric ==> res,
            self.no_symbols ==> res,
            self.no_numbers ==> res,
            self.no_uppercase ==> res,
            self.no_lowercase ==> res,
            self.exclude_ambiguous ==> res,
            !res ==> (self.length is None && !self.alphanumeric && !self.no_symbols
                && !self.no_numbers && !self.no_uppercase && !self.no_lowercase
                && !self.exclude_ambiguous),
    {
        self.length.is_some() || self.alphanumeric || self.no_symbols || self.no_numbers
            || self.no_uppercase || self.no_lowercase || self.exclude_ambiguous
    }
}

/// Each class of the policy follows its own option and no other: lowercase
/// is on unless `--no-lowercase`, uppercase unless `--no-uppercase`, digits
/// unless `--no-numbers`, symbols unless `--no-symbols` or `--alphanumeric`;
/// the length is the one given, or the default.
pub proof fn lemma_policy_follows_each_option(args: PasswordPolicyArgs)
    ensures
        policy_of_args(args).lowercase == !args.no_lowercase,
        policy_of_args(args).uppercase == !args.no_uppercase,
        policy_of_args(args).numbers == !args.no_numbers,
        policy_of_args(args).symbols == (!args.no_symbols && !args.alphanumeric),
        policy_of_args(args).exclude_ambiguous == args.exclude_ambiguous,
        args.length matches Some(l) ==> policy_of_args(args).length == l,
        args.length is None ==> policy_of_args(args).length == DEFAULT_PASSWORD_LENGTH,
{
}

/// Any single option given makes the options explicit; with none given they
/// are not.
pub proof fn lemma_any_option_is_explicit(args: PasswordPolicyArgs)
    ensures
        args.length is Some ==> args_are_explicit(args),
        args.alphanumeric ==> args_are_explicit(args),
        args.no_symbols ==> args_are_explicit(args),
        args.no_numbers ==> args_are_explicit(args),
        args.no_uppercase ==> args_are_explicit(args),
        args.no_lowercase ==> args_are_explicit(args),
        args.exclude_ambiguous ==> args_are_explicit(args),
        (args.length is None && !args.alphanumeric && !args.no_symbols && !args.no_numbers
            && !args.no_uppercase && !args.no_lowercase && !args.exclude_ambiguous)
            ==> !args_are_explicit(args),
{
}

/// Options with nothing given explicitly describe the default policy.
pub proof fn lemma_implicit_args_give_default_policy(args: PasswordPolicyArgs)
    requires
        !args_are_explicit(args),
    ensures
        policy_of_args(args) == default_policy(),
{
}

/// `c` is one of the ambiguous characters.
pub open spec fn is_ambiguous(c: char) -> bool {
    AMBIGUOUS@.contains(c)
}

/// `chars` without the ambiguous characters when `exclude_ambiguous` holds,
/// unchanged otherwise.
pub open spec fn filter_ambiguous(chars: Seq<char>, exclude_ambiguous: bool) -> Seq<char> {
    if exclude_ambiguous {
        chars.filter(|c: char| !is_ambiguous(c))
    } else {
        chars
    }
}

/// The class `chars`, filtered, when `enabled`; no class otherwise.
pub open spec fn class_if(enabled: bool, chars: Seq<char>, exclude_ambiguous: bool) -> Seq<
    Seq<char>,
> {
    if enabled {
        seq![filter_ambiguous(chars, exclude_ambiguous)]
    } else {
        Seq::empty()
    }
}

/// The character classes that `policy` enables, in the order lowercase,
/// uppercase, digits, symbols, each filtered as the policy asks.
pub open spec fn policy_classes(policy: PasswordPolicy) -> Seq<Seq<char>> {
    class_if(policy.lowercase, LOWERCASE@, policy.exclude_ambiguous) + class_if(
        policy.uppercase,
        UPPERCASE@,
        policy.exclude_ambiguous,
    ) + class_if(policy.numbers, NUMBERS@, policy.exclude_ambiguous) + class_if(
        policy.symbols,
        SYMBOLS@,
        policy.exclude_ambiguous,
    )
}

/// The views of a vector of character vectors.
pub open spec fn classes_view(classes: Seq<Vec<char>>) -> Seq<Seq<char>> {
    classes.map_values(|class: Vec<char>| class@)
}

/// Whether `c` is ambiguous.
pub fn is_ambiguous_char(c: char) -> (res: bool)
    ensures
        res == is_ambiguous(c),
{
    let ambiguous = chars_of(AMBIGUOUS);
    let mut i: usize = 0;
    while i < ambiguous.len()
        invariant
            i <= ambiguous@.len(),
            ambiguous@ == AMBIGUOUS@,
            forall|j: int| 0 <= j < i ==> ambiguous@[j] != c,
        decreases ambiguous@.len() - i,
    {
        if ambiguous[i] == c {
            assert(ambiguous@[i as int] == c);
            return true;
        }
        i = i + 1;
    }
    false
}

/// The characters of `chars`, without the ambiguous ones when
/// `exclude_ambiguous` holds.
pub fn filtered_chars(chars: &str, exclude_ambiguous: bool) -> (res: Vec<char>)
    ensures
        res@ == filter_ambiguous(chars@, exclude_ambiguous),
{
    let all = chars_of(chars);
    let mut res: Vec<char> = Vec::new();
    let mut i: usize = 0;
    while i < all.len()
        invariant
            i <= all@.len(),
            all@ == chars@,
            res@ == filter_ambiguous(all@.take(i as int), exclude_ambiguous),
        decreases all@.len() - i,
    {
        let c = all[i];
        assert(all@.take(i + 1) =~= all@.take(i as int).push(c));
        proof {
            all@.take(i as int).lemma_filter_push(c, |c: char| !is_ambiguous(c));
        }
        if !exclude_ambiguous || !is_ambiguous_char(c) {
            res.push(c);
        }
        i = i + 1;
    }
    assert(all@.take(all@.len() as int) =~= all@);
    res
}

/// A class keeps a character that is not ambiguous, so filtering cannot
/// empty it.
proof fn lemma_filter_keeps(chars: Seq<char>, exclude_ambiguous: bool, i: int)
    requires
        0 <= i < chars.len(),
        !is_ambiguous(chars[i]),
    ensures
        filter_ambiguous(chars, exclude_ambiguous).len() > 0,
{
    if exclude_ambiguous {
        chars.lemma_filter_contains(|c: char| !is_ambiguous(c), i);
    }
}

/// Every class that a policy enables keeps at least one character, with or
/// without the ambiguous ones.
pub proof fn lemma_policy_classes_nonempty(policy: PasswordPolicy)
    ensures
        forall|k: int| 0 <= k < policy_classes(policy).len() ==> #[trigger] policy_classes(policy)[k].len() > 0,
{
    reveal_strlit("O0oIl1|");
    reveal_strlit("abcdefghijklmnopqrstuvwxyz");
    reveal_strlit("ABCDEFGHIJKLMNOPQRSTUVWXYZ");
    reveal_strlit("0123456789");
    reveal_strlit("!@#$%^&*()-_=+[]{};:,.?/");
    let e = policy.exclude_ambiguous;
    assert(!is_ambiguous('a'));
    assert(!is_ambiguous('A'));
    assert(!is_ambiguous('2'));
    assert(!is_ambiguous('!'));
    lemma_filter_keeps(LOWERCASE@, e, 0);
    lemma_filter_keeps(UPPERCASE@, e, 0);
    lemma_filter_keeps(NUMBERS@, e, 2);
    lemma_filter_keeps(SYMBOLS@, e, 0);
}

/// `c` belongs to one of `classes`.
pub open spec fn in_some_class(classes: Seq<Seq<char>>, c: char) -> bool {
    exists|k: int| 0 <= k < classes.len() && #[trigger] classes[k].contains(c)
}

/// What every password generated under `policy` satisfies: it has the
/// policy's length, each character comes from an enabled class, and each
/// enabled class supplies at least one character.
pub open spec fn password_meets_policy(policy: PasswordPolicy, password: Seq<char>) -> bool {
    let classes = policy_classes(policy);
    &&& password.len() == policy.length
    &&& forall|i: int| 0 <= i < password.len() ==> in_some_class(classes, #[trigger] password[i])
    &&& forall|k: int| 0 <= k < classes.len() ==> #[trigger] represented(classes[k], password)
}

/// Some character of `password` belongs to `class`.
pub open spec fn represented(class: Seq<char>, password: Seq<char>) -> bool {
    exists|i: int| 0 <= i < password.len() && class.contains(#[trigger] password[i])
}

/// The error that generation under `policy` ends in, if any.
pub open spec fn policy_error(policy: PasswordPolicy) -> Option<PasswordError> {
    let n = policy_classes(policy).len();
    if n == 0 {
        Some(PasswordError::NoCharacterClasses)
    } else if policy.length < n {
        Some(PasswordError::LengthTooShort { minimum: n as usize })
    } else {
        None
    }
}

/// The character classes that `policy` enables, in the order lowercase,
/// uppercase, digits, symbols.
pub fn enabled_classes(policy: &PasswordPolicy) -> (res: Result<Vec<Vec<char>>, PasswordError>)
    ensures
        policy_classes(*policy).len() == 0 ==> res == Err::<Vec<Vec<char>>, PasswordError>(
            PasswordError::NoCharacterClasses,
        ),
        policy_classes(*policy).len() > 0 ==> res is Ok,
        res matches Ok(classes) ==> classes_view(classes@) == policy_classes(*policy),
{
    let e = policy.exclude_ambiguous;
    let mut classes: Vec<Vec<char>> = Vec::new();
    if policy.lowercase {
        classes.push(filtered_chars(LOWERCASE, e));
    }
    assert(classes_view(classes@) =~= class_if(policy.lowercase, LOWERCASE@, e));
    let ghost upto_lower = classes_view(classes@);
    if policy.uppercase {
        classes.push(filtered_chars(UPPERCASE, e));
    }
    assert(classes_view(classes@) =~= upto_lower + class_if(policy.uppercase, UPPERCASE@, e));
    let ghost upto_upper = classes_view(classes@);
    if policy.numbers {
        classes.push(filtered_chars(NUMBERS, e));
    }
    assert(classes_view(classes@) =~= upto_upper + class_if(policy.numbers, NUMBERS@, e));
    let ghost upto_numbers = classes_view(classes@);
    if policy.symbols {
        classes.push(filtered_chars(SYMBOLS, e));
    }
    assert(classes_view(classes@) =~= upto_numbers + class_if(policy.symbols, SYMBOLS@, e));
    assert(classes_view(classes@) =~= policy_classes(*policy));
    if classes.len() == 0 {
        return Err(PasswordError::NoCharacterClasses);
    }
    proof {
        lemma_policy_classes_nonempty(*policy);
    }
    let mut k: usize = 0;
    while k < classes.len()
        invariant
            k <= classes@.len(),
            classes_view(classes@) == policy_classes(*policy),
            forall|j: int| 0 <= j < policy_classes(*policy).len() ==> #[trigger] policy_classes(*policy)[j].len() > 0,
        decreases classes@.len() - k,
    {
        assert(classes_view(classes@)[k as int] == classes@[k as int]@);
        if classes[k].len() == 0 {
            return Err(PasswordError::EmptyCharacterClass);
        }
        k = k + 1;
    }
    Ok(classes)
}

/// A character of the flattened classes belongs to one of them.
proof fn lemma_flatten_in_some_class(classes: Seq<Seq<char>>, i: int)
    requires
        0 <= i < classes.flatten().len(),
    ensures
        in_some_class(classes, classes.flatten()[i]),
    decreases classes.len(),
{
    if classes.len() == 0 {
    } else if i < classes[0].len() {
        assert(classes[0].contains(classes.flatten()[i]));
    } else {
        lemma_flatten_in_some_class(classes.drop_first(), i - classes[0].len());
        let c = classes.flatten()[i];
        let k = choose|k: int| 0 <= k < classes.drop_first().len() && #[trigger] classes.drop_first()[k].contains(c);
        assert(classes[k + 1].contains(c));
    }
}

/// The characters of all `classes` together, in order.
pub fn all_class_chars(classes: &Vec<Vec<char>>) -> (res: Vec<char>)
    ensures
        res@ == classes_view(classes@).flatten(),
{
    let mut res: Vec<char> = Vec::new();
    let mut k: usize = 0;
    while k < classes.len()
        invariant
            k <= classes@.len(),
            res@ == classes_view(classes@).take(k as int).flatten(),
        decreases classes@.len() - k,
    {
        let class = &classes[k];
        let ghost before = res@;
        let mut j: usize = 0;
        while j < class.len()
            invariant
                j <= class@.len(),
                res@ == before + class@.take(j as int),
            decreases class@.len() - j,
        {
            res.push(class[j]);
            assert(class@.take(j + 1) =~= class@.take(j as int).push(class@[j as int]));
            j = j + 1;
        }
        assert(class@.take(class@.len() as int) =~= class@);
        proof {
            let cv = classes_view(classes@);
            assert(cv.take(k + 1) =~= cv.take(k as int).push(cv[k as int]));
            cv.take(k as int).lemma_flatten_push(cv[k as int]);
        }
        k = k + 1;
    }
    assert(classes_view(classes@).take(classes@.len() as int) =~= classes_view(classes@));
    res
}

/// The positions `0`, `1`, ..., `n - 1` in order.
pub open spec fn identity_order(n: nat) -> Seq<usize> {
    Seq::new(n, |i: int| i as usize)
}

/// The positions `0`, `1`, ..., `n - 1`, in order.
pub fn positions(n: usize) -> (res: Vec<usize>)
    ensures
        res@ == identity_order(n as nat),
{
    let mut res: Vec<usize> = Vec::new();
    let mut i: usize = 0;
    while i < n
        invariant
            i <= n,
            res@ == identity_order(i as nat),
        decreases n - i,
    {
        res.push(i);
        assert(res@ =~= identity_order((i + 1) as nat));
        i = i + 1;
    }
    res
}

/// The password made of the characters `drawn`, taken in the order that
/// `order` lists their positions.
pub fn assemble_password(drawn: &Vec<char>, order: &Vec<usize>) -> (res: String)
    requires
        forall|i: int| 0 <= i < order@.len() ==> #[trigger] order@[i] < drawn@.len(),
    ensures
        res@ == order@.map_values(|j: usize| drawn@[j as int]),
{
    let mut chars: Vec<char> = Vec::new();
    let mut i: usize = 0;
    while i < order.len()
        invariant
            i <= order@.len(),
            forall|i: int| 0 <= i < order@.len() ==> #[trigger] order@[i] < drawn@.len(),
            chars@ == order@.take(i as int).map_values(|j: usize| drawn@[j as int]),
        decreases order@.len() - i,
    {
        chars.push(drawn[order[i]]);
        assert(order@.take(i + 1).map_values(|j: usize| drawn@[j as int]) =~= order@.take(
            i as int,
        ).map_values(|j: usize| drawn@[j as int]).push(drawn@[order@[i as int] as int]));
        i = i + 1;
    }
    assert(order@.take(order@.len() as int) =~= order@);
    string_from_chars(chars)
}

/// A reordering of all positions below `n` lists each of them, and only
/// them.
proof fn lemma_permuted_positions(order: Seq<usize>, n: nat)
    requires
        order.to_multiset() == identity_order(n).to_multiset(),
    ensures
        order.len() == n,
        forall|i: int| 0 <= i < order.len() ==> #[trigger] order[i] < n,
        forall|k: int| 0 <= k < n ==> #[trigger] order.contains(k as usize),
{
    let id = identity_order(n);
    order.to_multiset_ensures();
    id.to_multiset_ensures();
    assert forall|i: int| 0 <= i < order.len() implies #[trigger] order[i] < n by {
        assert(order.contains(order[i]));
        assert(order.to_multiset().count(order[i]) > 0);
        assert(id.contains(order[i]));
    }
    assert forall|k: int| 0 <= k < n implies #[trigger] order.contains(k as usize) by {
        assert(id[k] == k as usize);
        assert(id.contains(k as usize));
        assert(id.to_multiset().count(k as usize) > 0);
    }
}

/// The random decisions of one password under `policy`: `choices` are the
/// characters chosen, each with its pool, and `shuffle` is the reordering of
/// positions, before and after. There is one choice from each enabled class
/// in turn, then a choice from all enabled classes together for every
/// remaining position; the positions `0..length` are shuffled, and the
/// password holds the chosen characters in the shuffled order.
pub open spec fn generation_round(
    policy: PasswordPolicy,
    choices: Seq<(Seq<char>, char)>,
    shuffle: (Seq<usize>, Seq<usize>),
    password: Seq<char>,
) -> bool {
    let classes = policy_classes(policy);
    let length = policy.length as int;
    &&& choices.len() == length
    &&& classes.len() <= length
    &&& forall|k: int| 0 <= k < length ==> (#[trigger] choices[k]).0.contains(choices[k].1)
    &&& forall|k: int| 0 <= k < classes.len() ==> (#[trigger] choices[k]).0 == classes[k]
    &&& forall|k: int| classes.len() <= k < length ==> (#[trigger] choices[k]).0 == classes.flatten()
    &&& shuffle.0 == identity_order(policy.length as nat)
    &&& shuffle.1.to_multiset() == shuffle.0.to_multiset()
    &&& password == shuffle.1.map_values(|j: usize| choices[j as int].1)
}

/// The random decisions that make the passwords `passwords` one after the
/// other, each from its own round of choices and its own shuffle.
pub open spec fn generation_rounds(
    policy: PasswordPolicy,
    choices: Seq<(Seq<char>, char)>,
    shuffles: Seq<(Seq<usize>, Seq<usize>)>,
    passwords: Seq<String>,
) -> bool
    decreases passwords.len(),
{
    if passwords.len() == 0 {
        choices.len() == 0 && shuffles.len() == 0
    } else {
        let length = policy.length as int;
        &&& choices.len() >= length
        &&& shuffles.len() >= 1
        &&& generation_round(
            policy,
            choices.skip(choices.len() - length),
            shuffles.last(),
            passwords.last()@,
        )
        &&& generation_rounds(
            policy,
            choices.take(choices.len() - length),
            shuffles.drop_last(),
            passwords.drop_last(),
        )
    }
}

/// `c` is one of the characters in `choices`.
pub open spec fn is_chosen(choices: Seq<(Seq<char>, char)>, c: char) -> bool {
    exists|j: int| 0 <= j < choices.len() && choices[j].1 == c
}

/// In a generation round, the password is exactly the chosen characters,
/// rearranged: it has the policy's length, each of its characters is one of
/// the round's choices, and each choice appears in it. The first choices are
/// taken from the enabled classes one by one, and every choice after them is
/// taken from all enabled classes together.
pub proof fn lemma_round_uses_every_choice(
    policy: PasswordPolicy,
    choices: Seq<(Seq<char>, char)>,
    shuffle: (Seq<usize>, Seq<usize>),
    password: Seq<char>,
)
    requires
        generation_round(policy, choices, shuffle, password),
    ensures
        password.len() == policy.length,
        choices.len() == policy.length,
        forall|i: int| 0 <= i < password.len() ==> is_chosen(choices, #[trigger] password[i]),
        forall|j: int| 0 <= j < choices.len() ==> password.contains((#[trigger] choices[j]).1),
        forall|j: int|
            0 <= j < policy_classes(policy).len() ==> #[trigger] policy_classes(policy)[j].contains(
                choices[j].1,
            ),
        forall|j: int|
            policy_classes(policy).len() <= j < choices.len() ==> #[trigger] policy_classes(
                policy,
            ).flatten().contains(choices[j].1),
{
    let n = policy.length as nat;
    lemma_permuted_positions(shuffle.1, n);
    assert forall|i: int| 0 <= i < password.len() implies is_chosen(choices, #[trigger] password[i])
        by {
        assert(password[i] == choices[shuffle.1[i] as int].1);
    }
    assert forall|j: int| 0 <= j < choices.len() implies password.contains(
        (#[trigger] choices[j]).1,
    ) by {
        assert(shuffle.1.contains(j as usize));
        let i = choose|i: int| 0 <= i < shuffle.1.len() && shuffle.1[i] == j as usize;
        assert(password[i] == choices[j].1);
    }
    assert forall|j: int| 0 <= j < policy_classes(policy).len() implies #[trigger] policy_classes(
        policy,
    )[j].contains(choices[j].1) by {
        assert(choices[j].0.contains(choices[j].1));
    }
    assert forall|j: int| policy_classes(policy).len() <= j < choices.len() implies
        #[trigger] policy_classes(policy).flatten().contains(choices[j].1) by {
        assert(choices[j].0.contains(choices[j].1));
    }
}

/// In decisions that make several passwords, the `i`-th password is made by
/// the `i`-th round alone: its own `length` choices, at positions
/// `i * length` to `(i + 1) * length`, and its own shuffle, the `i`-th.
pub proof fn lemma_rounds_make_each_password(
    policy: PasswordPolicy,
    choices: Seq<(Seq<char>, char)>,
    shuffles: Seq<(Seq<usize>, Seq<usize>)>,
    passwords: Seq<String>,
    i: int,
)
    requires
        generation_rounds(policy, choices, shuffles, passwords),
        0 <= i < passwords.len(),
    ensures
        choices.len() == passwords.len() * policy.length,
        shuffles.len() == passwords.len(),
        generation_round(
            policy,
            choices.subrange(i * policy.length, (i + 1) * policy.length),
            shuffles[i],
            passwords[i]@,
        ),
    decreases passwords.len(),
{
    lemma_rounds_lengths(policy, choices, shuffles, passwords);
    let m = passwords.len() as int;
    let l = policy.length as int;
    let prefix = choices.take(choices.len() - l);
    if i == m - 1 {
        assert((m - 1) * l + l == m * l) by (nonlinear_arith);
        assert(choices.subrange(i * l, (i + 1) * l) =~= choices.skip(choices.len() - l));
        assert(shuffles[i] == shuffles.last());
        assert(passwords[i] == passwords.last());
    } else {
        lemma_rounds_make_each_password(policy, prefix, shuffles.drop_last(), passwords.drop_last(), i);
        assert((i + 1) * l <= (m - 1) * l) by (nonlinear_arith)
            requires
                i + 1 <= m - 1,
                l >= 0,
        ;
        assert(0 <= i * l) by (nonlinear_arith)
            requires
                i >= 0,
                l >= 0,
        ;
        assert(i * l <= (i + 1) * l) by (nonlinear_arith)
            requires
                l >= 0,
        ;
        assert(prefix.subrange(i * l, (i + 1) * l) =~= choices.subrange(i * l, (i + 1) * l));
        assert(shuffles.drop_last()[i] == shuffles[i]);
        assert(passwords.drop_last()[i] == passwords[i]);
    }
}

/// The decisions that make several passwords hold one round of `length`
/// choices and one shuffle per password.
proof fn lemma_rounds_lengths(
    policy: PasswordPolicy,
    choices: Seq<(Seq<char>, char)>,
    shuffles: Seq<(Seq<usize>, Seq<usize>)>,
    passwords: Seq<String>,
)
    requires
        generation_rounds(policy, choices, shuffles, passwords),
    ensures
        choices.len() == passwords.len() * policy.length,
        shuffles.len() == passwords.len(),
    decreases passwords.len(),
{
    if passwords.len() > 0 {
        let l = policy.length as int;
        lemma_rounds_lengths(
            policy,
            choices.take(choices.len() - l),
            shuffles.drop_last(),
            passwords.drop_last(),
        );
        let m = passwords.len() as int;
        assert((m - 1) * l + l == m * l) by (nonlinear_arith);
    }
}

/// A random password under `policy`, with every random decision taken
/// through `source`: one character chosen from each enabled class, the rest
/// chosen from all enabled classes together, then the positions shuffled.
/// It fails exactly when no class is enabled or the length cannot hold one
/// character of each enabled class, taking no decision. Otherwise the
/// choices and the one shuffle it adds to `source` are a generation round of
/// the password it returns.
pub fn generate_password_with(policy: &PasswordPolicy, source: &mut RandomSource) -> (res: Result<
    String,
    PasswordError,
>)
    ensures
        match policy_error(*policy) {
            Some(e) => res == Err::<String, PasswordError>(e) && final(source).choices() == old(
                source,
            ).choices() && final(source).shuffles() == old(source).shuffles(),
            None => res matches Ok(password) && password_meets_policy(*policy, password@)
                && final(source).choices().len() == old(source).choices().len() + policy.length
                && final(source).choices().take(old(source).choices().len() as int) == old(
                source,
            ).choices() && final(source).shuffles() == old(source).shuffles().push(
                final(source).shuffles().last(),
            ) && generation_round(
                *policy,
                final(source).choices().skip(old(source).choices().len() as int),
                final(source).shuffles().last(),
                password@,
            ),
        },
{
    let ghost start = source.choices().len() as int;
    let ghost old_choices = source.choices();
    let ghost old_shuffles = source.shuffles();
    let classes = match enabled_classes(policy) {
        Ok(classes) => classes,
        Err(e) => return Err(e),
    };
    let ghost cv = policy_classes(*policy);
    proof {
        lemma_policy_classes_nonempty(*policy);
    }
    let n = classes.len();
    if policy.length < n {
        return Err(PasswordError::LengthTooShort { minimum: n });
    }
    let all_chars = all_class_chars(&classes);
    proof {
        cv.lemma_flatten_and_flatten_alt_are_equivalent();
        cv.lemma_flatten_length_ge_single_element_length(0);
        assert forall|i: int| 0 <= i < all_chars@.len() implies in_some_class(
            cv,
            #[trigger] all_chars@[i],
        ) by {
            lemma_flatten_in_some_class(cv, i);
        }
    }
    let mut drawn: Vec<char> = Vec::new();
    let mut k: usize = 0;
    while k < n
        invariant
            k <= n,
            n == classes@.len(),
            classes_view(classes@) == cv,
            cv.len() == n,
            forall|j: int| 0 <= j < cv.len() ==> #[trigger] cv[j].len() > 0,
            drawn@.len() == k,
            forall|j: int| 0 <= j < k ==> #[trigger] cv[j].contains(drawn@[j]),
            forall|i: int| 0 <= i < drawn@.len() ==> in_some_class(cv, #[trigger] drawn@[i]),
            source.shuffles() == old_shuffles,
            old_choices.len() == start,
            source.choices().len() == start + k,
            source.choices().take(start) == old_choices,
            forall|j: int|
                0 <= j < k ==> (#[trigger] source.choices()[start + j]).1 == drawn@[j]
                    && source.choices()[start + j].0 == cv[j] && source.choices()[start
                    + j].0.contains(drawn@[j]),
        decreases n - k,
    {
        assert(classes@[k as int]@ == cv[k as int]);
        let ghost before = source.choices();
        let c = source.choose_from(classes[k].as_slice());
        assert(source.choices()[start + k] == (classes@[k as int]@, c));
        assert forall|j: int| 0 <= j < start + k implies source.choices()[j] == before[j] by {
            assert(before.push((classes@[k as int]@, c))[j] == before[j]);
        }
        assert(cv[k as int].contains(c));
        drawn.push(c);
        assert(source.choices().take(start) =~= before.take(start));
        k = k + 1;
    }
    while drawn.len() < policy.length
        invariant
            n <= drawn@.len() <= policy.length,
            cv.len() == n,
            all_chars@.len() > 0,
            all_chars@ == cv.flatten(),
            forall|i: int| 0 <= i < all_chars@.len() ==> in_some_class(cv, #[trigger] all_chars@[i]),
            forall|j: int| 0 <= j < n ==> #[trigger] cv[j].contains(drawn@[j]),
            forall|i: int| 0 <= i < drawn@.len() ==> in_some_class(cv, #[trigger] drawn@[i]),
            source.shuffles() == old_shuffles,
            old_choices.len() == start,
            source.choices().len() == start + drawn@.len(),
            source.choices().take(start) == old_choices,
            forall|j: int|
                0 <= j < drawn@.len() ==> (#[trigger] source.choices()[start + j]).1 == drawn@[j]
                    && source.choices()[start + j].0.contains(drawn@[j]),
            forall|j: int| 0 <= j < n ==> (#[trigger] source.choices()[start + j]).0 == cv[j],
            forall|j: int|
                n <= j < drawn@.len() ==> (#[trigger] source.choices()[start + j]).0
                    == cv.flatten(),
        decreases policy.length - drawn@.len(),
    {
        let ghost before = source.choices();
        let c = source.choose_from(all_chars.as_slice());
        let ghost idx = choose|i: int| 0 <= i < all_chars@.len() && all_chars@[i] == c;
        assert(in_some_class(cv, all_chars@[idx]));
        drawn.push(c);
        assert(source.choices().take(start) =~= before.take(start));
    }
    let mut order = positions(drawn.len());
    source.shuffle(&mut order);
    proof {
        lemma_permuted_positions(order@, drawn@.len());
    }
    let password = assemble_password(&drawn, &order);
    proof {
        let p = password@;
        let round = source.choices().skip(start);
        let length = policy.length as int;
        assert(round.len() == length);
        assert forall|k: int| 0 <= k < length implies (#[trigger] round[k]).0.contains(
            round[k].1,
        ) by {
            assert(round[k] == source.choices()[start + k]);
        }
        assert forall|k: int| 0 <= k < cv.len() implies (#[trigger] round[k]).0 == cv[k] by {
            assert(round[k] == source.choices()[start + k]);
        }
        assert forall|k: int| cv.len() <= k < length implies (#[trigger] round[k]).0
            == cv.flatten() by {
            assert(round[k] == source.choices()[start + k]);
        }
        assert(source.shuffles().last() == (identity_order(drawn@.len() as nat), order@));
        assert(p =~= order@.map_values(|j: usize| round[j as int].1)) by {
            assert forall|i: int| 0 <= i < p.len() implies p[i] == round[order@[i] as int].1 by {
                assert(round[order@[i] as int] == source.choices()[start + order@[i]]);
            }
        }
        assert forall|i: int| 0 <= i < p.len() implies in_some_class(cv, #[trigger] p[i]) by {
            assert(p[i] == drawn@[order@[i] as int]);
        }
        assert forall|k: int| 0 <= k < cv.len() implies #[trigger] represented(cv[k], p) by {
            assert(order@.contains(k as usize));
            let i = choose|i: int| 0 <= i < order@.len() && order@[i] == k as usize;
            assert(p[i] == drawn@[k]);
        }
    }
    Ok(password)
}

/// A random password under `policy`: one character drawn from each enabled
/// class, the rest drawn from all enabled classes together, then shuffled,
/// with the thread's random generator. It fails exactly when no class is
/// enabled or the length cannot hold one character of each enabled class;
/// otherwise the password has the policy's length, takes every character
/// from an enabled class and has at least one character of each.
pub fn generate_password(policy: &PasswordPolicy) -> (res: Result<String, PasswordError>)
    ensures
        match policy_error(*policy) {
            Some(e) => res == Err::<String, PasswordError>(e),
            None => res matches Ok(password) && password_meets_policy(*policy, password@)
                && exists|choices: Seq<(Seq<char>, char)>, shuffle: (Seq<usize>, Seq<usize>)|
                #[trigger] generation_round(*policy, choices, shuffle, password@),
        },
{
    let mut source = RandomSource::new();
    let res = generate_password_with(policy, &mut source);
    proof {
        if policy_error(*policy) is None {
            assert(source.choices().skip(0) =~= source.choices());
        }
    }
    res
}

/// `count` random passwords under `policy`, each made by its own call of
/// [`generate_password_with`] on `source`, so each from its own round of
/// random decisions. It fails when `count` is zero, and otherwise exactly
/// when a single password cannot be made, with the same error; a failure
/// takes no decision.
pub fn generate_passwords_with(
    policy: &PasswordPolicy,
    count: usize,
    source: &mut RandomSource,
) -> (res: Result<Vec<String>, PasswordError>)
    ensures
        count == 0 ==> res == Err::<Vec<String>, PasswordError>(PasswordError::ZeroCount),
        (count == 0 || policy_error(*policy) is Some) ==> final(source).choices() == old(
            source,
        ).choices() && final(source).shuffles() == old(source).shuffles(),
        count > 0 ==> match policy_error(*policy) {
            Some(e) => res == Err::<Vec<String>, PasswordError>(e),
            None => res matches Ok(passwords) && passwords@.len() == count && (forall|i: int|
                0 <= i < count ==> password_meets_policy(*policy, #[trigger] passwords@[i]@))
                && final(source).choices().take(old(source).choices().len() as int) == old(
                source,
            ).choices() && final(source).shuffles().take(old(source).shuffles().len() as int)
                == old(source).shuffles() && generation_rounds(
                *policy,
                final(source).choices().skip(old(source).choices().len() as int),
                final(source).shuffles().skip(old(source).shuffles().len() as int),
                passwords@,
            ),
        },
{
    if count == 0 {
        return Err(PasswordError::ZeroCount);
    }
    let ghost cstart = source.choices().len() as int;
    let ghost sstart = source.shuffles().len() as int;
    let ghost old_choices = source.choices();
    let ghost old_shuffles = source.shuffles();
    let mut passwords: Vec<String> = Vec::new();
    let mut i: usize = 0;
    assert(source.choices().skip(cstart) =~= Seq::<(Seq<char>, char)>::empty());
    assert(source.shuffles().skip(sstart) =~= Seq::<(Seq<usize>, Seq<usize>)>::empty());
    while i < count
        invariant
            i <= count,
            count > 0,
            i > 0 ==> policy_error(*policy) is None,
            i == 0 ==> source.choices() == old_choices && source.shuffles() == old_shuffles,
            cstart == old_choices.len(),
            sstart == old_shuffles.len(),
            old_choices == old(source).choices(),
            old_shuffles == old(source).shuffles(),
            passwords@.len() == i,
            forall|j: int| 0 <= j < i ==> password_meets_policy(*policy, #[trigger] passwords@[j]@),
            source.choices().len() >= cstart,
            source.shuffles().len() >= sstart,
            source.choices().take(cstart) == old_choices,
            source.shuffles().take(sstart) == old_shuffles,
            generation_rounds(
                *policy,
                source.choices().skip(cstart),
                source.shuffles().skip(sstart),
                passwords@,
            ),
        decreases count - i,
    {
        let ghost before_c = source.choices();
        let ghost before_s = source.shuffles();
        match generate_password_with(policy, source) {
            Ok(password) => {
                proof {
                    let after_c = source.choices();
                    let after_s = source.shuffles();
                    let length = policy.length as int;
                    assert(after_c.take(cstart) =~= before_c.take(cstart));
                    assert(after_s.take(sstart) =~= before_s.take(sstart));
                    let cseg = after_c.skip(cstart);
                    let sseg = after_s.skip(sstart);
                    assert(cseg.skip(cseg.len() - length) =~= after_c.skip(before_c.len() as int));
                    assert(cseg.take(cseg.len() - length) =~= before_c.skip(cstart));
                    assert(sseg.last() == after_s.last());
                    assert(sseg.drop_last() =~= before_s.skip(sstart));
                    assert(passwords@.push(password).drop_last() =~= passwords@);
                }
                passwords.push(password);
            },
            Err(e) => {
                return Err(e);
            },
        }
        i = i + 1;
    }
    Ok(passwords)
}

/// `count` random passwords under `policy`, each made on its own as
/// [`generate_password`] makes one, with the thread's random generator. It
/// fails when `count` is zero, and otherwise exactly when
/// [`generate_password`] fails, with the same error.
pub fn generate_passwords(policy: &PasswordPolicy, count: usize) -> (res: Result<
    Vec<String>,
    PasswordError,
>)
    ensures
        count == 0 ==> res == Err::<Vec<String>, PasswordError>(PasswordError::ZeroCount),
        count > 0 ==> match policy_error(*policy) {
            Some(e) => res == Err::<Vec<String>, PasswordError>(e),
            None => res matches Ok(passwords) && passwords@.len() == count && (forall|i: int|
                0 <= i < count ==> password_meets_policy(*policy, #[trigger] passwords@[i]@))
                && exists|choices: Seq<(Seq<char>, char)>, shuffles: Seq<(Seq<usize>, Seq<usize>)>|
                #[trigger] generation_rounds(*policy, choices, shuffles, passwords@),
        },
{
    let mut source = RandomSource::new();
    let res = generate_passwords_with(policy, count, &mut source);
    proof {
        if count > 0 && policy_error(*policy) is None {
            assert(source.choices().skip(0) =~= source.choices());
            assert(source.shuffles().skip(0) =~= source.shuffles());
        }
    }
    res
}

/// A character that `char::is_ascii_alphanumeric` accepts.
pub open spec fn is_ascii_alphanumeric(c: char) -> bool {
    ||| 'a' <= c <= 'z'
    ||| 'A' <= c <= 'Z'
    ||| '0' <= c <= '9'
}

/// Under a policy that excludes ambiguous characters, no generated password
/// holds one.
pub proof fn lemma_password_has_no_ambiguous(policy: PasswordPolicy, password: Seq<char>)
    requires
        password_meets_policy(policy, password),
        policy.exclude_ambiguous,
    ensures
        forall|i: int| 0 <= i < password.len() ==> !is_ambiguous(#[trigger] password[i]),
{
    let cv = policy_classes(policy);
    assert forall|i: int| 0 <= i < password.len() implies !is_ambiguous(#[trigger] password[i]) by {
        assert(in_some_class(cv, password[i]));
        let k = choose|k: int| 0 <= k < cv.len() && #[trigger] cv[k].contains(password[i]);
        let chars = if k == 0 && policy.lowercase {
            LOWERCASE@
        } else if k == (policy.lowercase as int) && policy.uppercase {
            UPPERCASE@
        } else if k == (policy.lowercase as int) + (policy.uppercase as int) && policy.numbers {
            NUMBERS@
        } else {
            SYMBOLS@
        };
        assert(cv[k] == chars.filter(|c: char| !is_ambiguous(c)));
        let j = choose|j: int| 0 <= j < cv[k].len() && cv[k][j] == password[i];
        chars.lemma_filter_pred(|c: char| !is_ambiguous(c), j);
    }
}

/// Every character of the letter and digit classes is ASCII alphanumeric,
/// filtered or not.
proof fn lemma_letters_and_digits_alphanumeric(chars: Seq<char>, exclude_ambiguous: bool, c: char)
    requires
        chars == LOWERCASE@ || chars == UPPERCASE@ || chars == NUMBERS@,
        filter_ambiguous(chars, exclude_ambiguous).contains(c),
    ensures
        is_ascii_alphanumeric(c),
{
    reveal_strlit("abcdefghijklmnopqrstuvwxyz");
    reveal_strlit("ABCDEFGHIJKLMNOPQRSTUVWXYZ");
    reveal_strlit("0123456789");
    if exclude_ambiguous {
        let f = chars.filter(|c: char| !is_ambiguous(c));
        let j = choose|j: int| 0 <= j < f.len() && f[j] == c;
        chars.lemma_filter_contains_rev(|c: char| !is_ambiguous(c), c);
    }
    let i = choose|i: int| 0 <= i < chars.len() && chars[i] == c;
    assert(forall|i: int| 0 <= i < chars.len() ==> is_ascii_alphanumeric(#[trigger] chars[i]));
}

/// Under a policy without symbols, every generated password is ASCII
/// alphanumeric.
pub proof fn lemma_password_without_symbols_is_alphanumeric(
    policy: PasswordPolicy,
    password: Seq<char>,
)
    requires
        password_meets_policy(policy, password),
        !policy.symbols,
    ensures
        forall|i: int| 0 <= i < password.len() ==> is_ascii_alphanumeric(#[trigger] password[i]),
{
    let cv = policy_classes(policy);
    assert forall|i: int| 0 <= i < password.len() implies is_ascii_alphanumeric(
        #[trigger] password[i],
    ) by {
        assert(in_some_class(cv, password[i]));
        let k = choose|k: int| 0 <= k < cv.len() && #[trigger] cv[k].contains(password[i]);
        let chars = if k == 0 && policy.lowercase {
            LOWERCASE@
        } else if k == (policy.lowercase as int) && policy.uppercase {
            UPPERCASE@
        } else {
            NUMBERS@
        };
        assert(cv[k] == filter_ambiguous(chars, policy.exclude_ambiguous));
        lemma_letters_and_digits_alphanumeric(chars, policy.exclude_ambiguous, password[i]);
    }
}

} // verus!
