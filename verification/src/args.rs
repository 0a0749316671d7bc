//! Command line argument parsing shared by the built-ins.
//!
//! Arguments are split into option occurrences and operands: leading words
//! starting with `-` are options (single-letter options may be clustered,
//! `--name` selects an option by its long name), `--` ends the options, and
//! everything after belongs to the operands.

use crate::env::Env;
use crate::semantics::Field;
use vstd::prelude::*;
use vstd::string::StrSliceExecFns;

verus! {

/// Description of an option a built-in accepts.
#[derive(Debug, Eq, PartialEq)]
pub struct OptionSpec {
    /// The single-character name, as in `-L`.
    pub short_name: Option<char>,
    /// The long name, without the leading `--`, as in `--logical`.
    pub long_name: Option<String>,
}

impl Clone for OptionSpec {
    fn clone(&self) -> (r: Self)
        ensures
            r == *self,
    {
        OptionSpec {
            short_name: self.short_name,
            long_name: match &self.long_name {
                Some(n) => Some(n.clone()),
                None => None,
            },
        }
    }
}

impl OptionSpec {
    /// A specification that names no option yet.
    pub fn new() -> (r: OptionSpec)
        ensures
            r.short_name is None,
            r.long_name is None,
    {
        OptionSpec { short_name: None, long_name: None }
    }

    /// Sets the single-character name.
    pub fn short(self, c: char) -> (r: OptionSpec)
        ensures
            r.short_name == Some(c),
            r.long_name == self.long_name,
    {
        OptionSpec { short_name: Some(c), ..self }
    }

    /// Sets the long name.
    pub fn long(self, name: &str) -> (r: OptionSpec)
        ensures
            r.long_name matches Some(n) && n@ == name@,
            r.short_name == self.short_name,
    {
        OptionSpec { long_name: Some(name.to_owned()), ..self }
    }

    /// The single-character name, if any.
    pub fn get_short(&self) -> (r: Option<char>)
        ensures
            r == self.short_name,
    {
        self.short_name
    }
}

/// One option found among the arguments.
#[derive(Debug, Eq, PartialEq)]
pub struct OptionOccurrence {
    /// The single-character name of the option's specification, which
    /// identifies the option even when it was written in its long form.
    pub spec_short: Option<char>,
    /// The argument of the option, if the option takes one.
    pub argument: Option<Field>,
}

impl Clone for OptionOccurrence {
    fn clone(&self) -> (r: Self)
        ensures
            r == *self,
    {
        OptionOccurrence {
            spec_short: self.spec_short,
            argument: match &self.argument {
                Some(f) => Some(f.clone()),
                None => None,
            },
        }
    }
}

impl OptionOccurrence {
    /// The single-character name of the option's specification.
    pub fn get_short(&self) -> (r: Option<char>)
        ensures
            r == self.spec_short,
    {
        self.spec_short
    }
}

/// Error in parsing command line arguments.
#[derive(Debug, Eq, PartialEq)]
pub enum ParseError {
    /// A single-character option that no specification names.
    UnknownShortOption(char, Field),
    /// A long option that no specification names.
    UnknownLongOption(Field),
}

impl Clone for ParseError {
    fn clone(&self) -> (r: Self)
        ensures
            r == *self,
    {
        match self {
            ParseError::UnknownShortOption(c, f) => ParseError::UnknownShortOption(*c, f.clone()),
            ParseError::UnknownLongOption(f) => ParseError::UnknownLongOption(f.clone()),
        }
    }
}

/// The suffix of the annotation label for an unknown option.
pub open spec fn unknown_option_suffix() -> Seq<char> {
    seq![':', ' ', 'u', 'n', 'k', 'n', 'o', 'w', 'n', ' ', 'o', 'p', 't', 'i', 'o', 'n']
}

impl ParseError {
    /// The annotation locating this error: the argument holding the unknown
    /// option.
    pub fn main_annotation(&self) -> (r: crate::message::Annotation)
        ensures
            r.annotation_type == crate::message::AnnotationType::Error,
            match self {
                ParseError::UnknownShortOption(_, f) => r.label@ == f.value@
                    + unknown_option_suffix() && r.location == f.origin,
                ParseError::UnknownLongOption(f) => r.label@ == f.value@
                    + unknown_option_suffix() && r.location == f.origin,
            },
    {
        let field = match self {
            ParseError::UnknownShortOption(_, f) => f,
            ParseError::UnknownLongOption(f) => f,
        };
        let mut label = String::new();
        label.append(field.value.as_str());
        label.append(": unknown option");
        proof {
            reveal_strlit(": unknown option");
            assert(label@ =~= field.value@ + unknown_option_suffix());
        }
        crate::message::Annotation::new(crate::message::AnnotationType::Error, label, &field.origin)
    }
}

/// Parser behavior selector. The standard mode is the only one.
#[derive(Clone, Copy, Debug, Eq, PartialEq, Structural)]
pub enum Mode {
    /// The POSIX-style behavior described in the module documentation.
    Standard,
}

impl Mode {
    /// The parsing mode for the given environment.
    pub fn with_env(_env: &Env) -> (r: Mode)
        ensures
            r == Mode::Standard,
    {
        Mode::Standard
    }
}

/// The names of an option specification, with strings as character
/// sequences, for use in contracts.
pub struct OptionSpecView {
    /// The single-character name.
    pub short: Option<char>,
    /// The long name.
    pub long: Option<Seq<char>>,
}

/// The names of a specification.
pub open spec fn spec_view(s: OptionSpec) -> OptionSpecView {
    OptionSpecView {
        short: s.short_name,
        long: match s.long_name {
            Some(n) => Some(n@),
            None => None,
        },
    }
}

/// The names of a sequence of specifications.
pub open spec fn specs_view(specs: Seq<OptionSpec>) -> Seq<OptionSpecView> {
    Seq::new(specs.len(), |i: int| spec_view(specs[i]))
}

/// The index of the first specification naming the short option `c`, or the
/// number of specifications when none does.
pub open spec fn short_spec_index(specs: Seq<OptionSpecView>, c: char) -> int
    decreases specs.len(),
{
    if specs.len() == 0 {
        0
    } else if specs[0].short == Some(c) {
        0
    } else {
        1 + short_spec_index(specs.drop_first(), c)
    }
}

/// The index of the first specification naming the long option `name`, or
/// the number of specifications when none does.
pub open spec fn long_spec_index(specs: Seq<OptionSpecView>, name: Seq<char>) -> int
    decreases specs.len(),
{
    if specs.len() == 0 {
        0
    } else if specs[0].long matches Some(n) && n == name {
        0
    } else {
        1 + long_spec_index(specs.drop_first(), name)
    }
}

/// A found short-option index names a specification carrying that short
/// option.
pub proof fn lemma_short_spec_index_found(specs: Seq<OptionSpecView>, c: char)
    ensures
        short_spec_index(specs, c) < specs.len() ==> 0 <= short_spec_index(specs, c)
            && specs[short_spec_index(specs, c)].short == Some(c),
    decreases specs.len(),
{
    if specs.len() > 0 && specs[0].short != Some(c) {
        lemma_short_spec_index_found(specs.drop_first(), c);
        assert(forall|j: int|
            0 <= j < specs.len() - 1 ==> #[trigger] specs.drop_first()[j] == specs[j + 1]);
    }
}

/// A found long-option index is in range.
pub proof fn lemma_long_spec_index_found(specs: Seq<OptionSpecView>, name: Seq<char>)
    ensures
        long_spec_index(specs, name) < specs.len() ==> 0 <= long_spec_index(specs, name),
    decreases specs.len(),
{
    if specs.len() > 0 && !(specs[0].long matches Some(n) && n == name) {
        lemma_long_spec_index_found(specs.drop_first(), name);
    }
}

/// Every option occurrence of well-formed arguments carries the short name
/// of one of the specifications.
pub proof fn lemma_spec_options_known(specs: Seq<OptionSpecView>, args: Seq<Field>)
    requires
        args_ok(specs, args),
    ensures
        forall|j: int|
            0 <= j < spec_options(specs, args).len() ==> exists|i: int|
                0 <= i < specs.len() && (#[trigger] spec_options(specs, args)[j]).spec_short
                    == specs[i].short,
    decreases args.len(),
{
    if args.len() > 0 {
        let v = args[0].value@;
        if is_separator(v) {
        } else if is_short_cluster(v) {
            lemma_spec_options_known(specs, args.drop_first());
            assert forall|j: int|
                0 <= j < spec_options(specs, args).len() implies exists|i: int|
                0 <= i < specs.len() && (#[trigger] spec_options(specs, args)[j]).spec_short
                    == specs[i].short by {
                let head = cluster_occurrences(v);
                if j < head.len() {
                    let c = v[j + 1];
                    assert(short_spec_index(specs, c) < specs.len());
                    lemma_short_spec_index_found(specs, c);
                    let i = short_spec_index(specs, c);
                    assert(0 <= i < specs.len() && spec_options(specs, args)[j].spec_short
                        == specs[i].short);
                } else {
                    assert(spec_options(specs, args)[j] == spec_options(
                        specs,
                        args.drop_first(),
                    )[j - head.len()]);
                }
            }
        } else if is_long_option(v) {
            lemma_spec_options_known(specs, args.drop_first());
            lemma_long_spec_index_found(specs, v.skip(2));
            assert forall|j: int|
                0 <= j < spec_options(specs, args).len() implies exists|i: int|
                0 <= i < specs.len() && (#[trigger] spec_options(specs, args)[j]).spec_short
                    == specs[i].short by {
                if j == 0 {
                    let i = long_spec_index(specs, v.skip(2));
                    assert(0 <= i < specs.len() && spec_options(specs, args)[j].spec_short
                        == specs[i].short);
                } else {
                    assert(spec_options(specs, args)[j] == spec_options(
                        specs,
                        args.drop_first(),
                    )[j - 1]);
                }
            }
        }
    }
}

/// Whether an argument value is a cluster of single-character options.
pub open spec fn is_short_cluster(v: Seq<char>) -> bool {
    v.len() >= 2 && v[0] == '-' && v[1] != '-'
}

/// Whether an argument value is a long option.
pub open spec fn is_long_option(v: Seq<char>) -> bool {
    v.len() >= 3 && v[0] == '-' && v[1] == '-'
}

/// Whether an argument value is the `--` separator.
pub open spec fn is_separator(v: Seq<char>) -> bool {
    v == seq!['-', '-']
}

/// Whether every option among the arguments is named by a specification.
pub open spec fn args_ok(specs: Seq<OptionSpecView>, args: Seq<Field>) -> bool
    decreases args.len(),
{
    if args.len() == 0 {
        true
    } else {
        let v = args[0].value@;
        if is_separator(v) {
            true
        } else if is_short_cluster(v) {
            (forall|k: int|
                1 <= k < v.len() ==> short_spec_index(specs, #[trigger] v[k]) < specs.len())
                && args_ok(specs, args.drop_first())
        } else if is_long_option(v) {
            long_spec_index(specs, v.skip(2)) < specs.len() && args_ok(specs, args.drop_first())
        } else {
            true
        }
    }
}

/// The option occurrences of a cluster: one per character after the `-`.
pub open spec fn cluster_occurrences(v: Seq<char>) -> Seq<OptionOccurrence> {
    Seq::new((v.len() - 1) as nat, |k: int| OptionOccurrence { spec_short: Some(v[k + 1]), argument: None })
}

/// The option occurrences of the arguments, assuming every option is known.
pub open spec fn spec_options(specs: Seq<OptionSpecView>, args: Seq<Field>) -> Seq<OptionOccurrence>
    decreases args.len(),
{
    if args.len() == 0 {
        Seq::empty()
    } else {
        let v = args[0].value@;
        if is_separator(v) {
            Seq::empty()
        } else if is_short_cluster(v) {
            cluster_occurrences(v) + spec_options(specs, args.drop_first())
        } else if is_long_option(v) {
            seq![
                OptionOccurrence {
                    spec_short: specs[long_spec_index(specs, v.skip(2))].short,
                    argument: None,
                },
            ] + spec_options(specs, args.drop_first())
        } else {
            Seq::empty()
        }
    }
}

/// The operands of the arguments: what follows the options and any `--`
/// separator.
pub open spec fn spec_operands(specs: Seq<OptionSpecView>, args: Seq<Field>) -> Seq<Field>
    decreases args.len(),
{
    if args.len() == 0 {
        Seq::empty()
    } else {
        let v = args[0].value@;
        if is_separator(v) {
            args.drop_first()
        } else if is_short_cluster(v) || is_long_option(v) {
            spec_operands(specs, args.drop_first())
        } else {
            args
        }
    }
}

/// Looks up the first specification naming the short option `c`.
fn find_short(specs: &Vec<OptionSpec>, c: char) -> (r: Option<usize>)
    ensures
        match r {
            Some(i) => i as int == short_spec_index(specs_view(specs@), c) && i < specs@.len()
                && specs@[i as int].short_name == Some(c),
            None => short_spec_index(specs_view(specs@), c) >= specs@.len(),
        },
{
    let ghost sv = specs_view(specs@);
    let n = specs.len();
    let mut i: usize = 0;
    proof {
        assert(sv.skip(0) =~= sv);
        lemma_short_spec_index_nonneg(sv, c);
    }
    while i < n
        invariant
            i <= n,
            n == specs@.len(),
            sv == specs_view(specs@),
            sv.len() == n,
            short_spec_index(sv, c) == i + short_spec_index(sv.skip(i as int), c),
            short_spec_index(sv.skip(i as int), c) >= 0,
        decreases n - i,
    {
        proof {
            assert(sv.skip(i as int)[0] == sv[i as int]);
            assert(sv[i as int] == spec_view(specs@[i as int]));
            assert(sv.skip(i as int).drop_first() =~= sv.skip(i + 1 as int));
            lemma_short_spec_index_nonneg(sv.skip(i + 1 as int), c);
        }
        let found = match &specs[i].short_name {
            Some(s) => *s == c,
            None => false,
        };
        if found {
            return Some(i);
        }
        i = i + 1;
    }
    proof {
        assert(sv.skip(n as int) =~= Seq::<OptionSpecView>::empty());
    }
    None
}

proof fn lemma_short_spec_index_nonneg(specs: Seq<OptionSpecView>, c: char)
    ensures
        short_spec_index(specs, c) >= 0,
    decreases specs.len(),
{
    if specs.len() > 0 && specs[0].short != Some(c) {
        lemma_short_spec_index_nonneg(specs.drop_first(), c);
    }
}

proof fn lemma_long_spec_index_nonneg(specs: Seq<OptionSpecView>, name: Seq<char>)
    ensures
        long_spec_index(specs, name) >= 0,
    decreases specs.len(),
{
    if specs.len() > 0 && !(specs[0].long matches Some(n) && n == name) {
        lemma_long_spec_index_nonneg(specs.drop_first(), name);
    }
}

/// Looks up the first specification naming the long option `name`.
fn find_long(specs: &Vec<OptionSpec>, name: &str) -> (r: Option<usize>)
    ensures
        match r {
            Some(i) => i as int == long_spec_index(specs_view(specs@), name@) && i < specs@.len(),
            None => long_spec_index(specs_view(specs@), name@) >= specs@.len(),
        },
{
    let ghost sv = specs_view(specs@);
    let n = specs.len();
    let mut i: usize = 0;
    proof {
        assert(sv.skip(0) =~= sv);
        lemma_long_spec_index_nonneg(sv, name@);
    }
    while i < n
        invariant
            i <= n,
            n == specs@.len(),
            sv == specs_view(specs@),
            sv.len() == n,
            long_spec_index(sv, name@) == i + long_spec_index(sv.skip(i as int), name@),
            long_spec_index(sv.skip(i as int), name@) >= 0,
        decreases n - i,
    {
        proof {
            assert(sv.skip(i as int)[0] == sv[i as int]);
            assert(sv[i as int] == spec_view(specs@[i as int]));
            assert(sv.skip(i as int).drop_first() =~= sv.skip(i + 1 as int));
            lemma_long_spec_index_nonneg(sv.skip(i + 1 as int), name@);
        }
        let found = match &specs[i].long_name {
            Some(l) => crate::strings::str_eq(l.as_str(), name),
            None => false,
        };
        if found {
            return Some(i);
        }
        i = i + 1;
    }
    proof {
        assert(sv.skip(n as int) =~= Seq::<OptionSpecView>::empty());
    }
    None
}

/// Splits the arguments into option occurrences and operands.
///
/// Returns the error exactly when an option among the arguments is not named
/// by any specification. Each returned occurrence carries the short name of
/// the specification it matched.
pub fn parse_arguments(specs: &Vec<OptionSpec>, _mode: Mode, args: Vec<Field>) -> (r: Result<
    (Vec<OptionOccurrence>, Vec<Field>),
    ParseError,
>)
    ensures
        match r {
            Ok((options, operands)) => args_ok(specs_view(specs@), args@) && options@
                == spec_options(specs_view(specs@), args@) && operands@ == spec_operands(
                specs_view(specs@),
                args@,
            ),
            Err(_) => !args_ok(specs_view(specs@), args@),
        },
{
    let ghost sv = specs_view(specs@);
    let n = args.len();
    let mut options: Vec<OptionOccurrence> = Vec::new();
    let mut i: usize = 0;
    let mut skipped_separator = false;
    let mut reached_operand = false;
    proof {
        assert(args@.skip(0) =~= args@);
    }
    while i < n && !skipped_separator && !reached_operand
        invariant
            i <= n,
            n == args@.len(),
            sv == specs_view(specs@),
            sv.len() == specs@.len(),
            reached_operand ==> ({
                &&& args_ok(sv, args@)
                &&& spec_options(sv, args@) =~= options@
                &&& spec_operands(sv, args@) == args@.skip(i as int)
            }),
            !skipped_separator && !reached_operand ==> ({
                &&& args_ok(sv, args@) == args_ok(sv, args@.skip(i as int))
                &&& spec_options(sv, args@) =~= options@ + spec_options(
                    sv,
                    args@.skip(i as int),
                )
                &&& spec_operands(sv, args@) == spec_operands(sv, args@.skip(i as int))
            }),
            skipped_separator ==> ({
                &&& args_ok(sv, args@)
                &&& spec_options(sv, args@) =~= options@
                &&& spec_operands(sv, args@) == args@.skip(i as int)
            }),
        decreases n - i, (if reached_operand { 0int } else { 1int }),
    {
        let ghost suffix = args@.skip(i as int);
        proof {
            assert(suffix[0] == args@[i as int]);
            assert(suffix.drop_first() =~= args@.skip(i + 1 as int));
        }
        let value = &args[i].value;
        let ghost v = value@;
        let len = value.as_str().unicode_len();
        if len >= 2 && value.as_str().get_char(0) == '-' {
            if len == 2 && value.as_str().get_char(1) == '-' {
                // `--` ends the options.
                proof {
                    assert(v =~= seq!['-', '-']);
                    assert(is_separator(v));
                }
                skipped_separator = true;
                i = i + 1;
            } else if value.as_str().get_char(1) == '-' {
                // A long option.
                proof {
                    assert(is_long_option(v));
                }
                let name = value.as_str().substring_char(2, len);
                proof {
                    assert(name@ =~= v.skip(2));
                }
                match find_long(specs, name) {
                    Some(j) => {
                        let ghost prev = options@;
                        options.push(
                            OptionOccurrence { spec_short: specs[j].get_short(), argument: None },
                        );
                        proof {
                            assert(options@ =~= prev.push(options@.last()));
                            assert(sv[long_spec_index(sv, v.skip(2))] == spec_view(
                                specs@[long_spec_index(sv, v.skip(2))],
                            ));
                            assert(spec_options(sv, suffix) =~= seq![
                                OptionOccurrence {
                                    spec_short: sv[long_spec_index(sv, v.skip(2))].short,
                                    argument: None,
                                },
                            ] + spec_options(sv, suffix.drop_first()));
                        }
                        i = i + 1;
                    },
                    None => {
                        proof {
                            assert(!args_ok(sv, suffix));
                        }
                        return Err(ParseError::UnknownLongOption(args[i].clone()));
                    },
                }
            } else {
                // A cluster of short options.
                proof {
                    assert(is_short_cluster(v));
                }
                let ghost opts_before = options@;
                let mut k: usize = 1;
                proof {
                    assert(cluster_occurrences(v).take(0) =~= Seq::<OptionOccurrence>::empty());
                    assert(options@ =~= opts_before + cluster_occurrences(v).take(0));
                }
                while k < len
                    invariant
                        1 <= k <= len,
                        len == v.len(),
                        i < n,
                        n == args@.len(),
                        sv == specs_view(specs@),
                        sv.len() == specs@.len(),
                        v == args@[i as int].value@,
                        is_short_cluster(v),
                        args_ok(sv, args@) == args_ok(sv, args@.skip(i as int)),
                        spec_options(sv, args@) =~= opts_before + spec_options(
                            sv,
                            args@.skip(i as int),
                        ),
                        spec_operands(sv, args@) == spec_operands(
                            sv,
                            args@.skip(i as int),
                        ),
                        forall|m: int|
                            1 <= m < k ==> short_spec_index(sv, #[trigger] v[m]) < specs@.len(),
                        options@ =~= opts_before + cluster_occurrences(v).take(k - 1),
                    decreases len - k,
                {
                    let c = args[i].value.as_str().get_char(k);
                    match find_short(specs, c) {
                        Some(_) => {
                            let ghost prev = options@;
                            options.push(OptionOccurrence { spec_short: Some(c), argument: None });
                            proof {
                                assert(options@ =~= prev.push(options@.last()));
                                assert(cluster_occurrences(v).take(k - 1).push(
                                    OptionOccurrence {
                                        spec_short: Some(v[k as int]),
                                        argument: None,
                                    },
                                ) =~= cluster_occurrences(v).take(k as int));
                                assert(options@ =~= opts_before + cluster_occurrences(v).take(
                                    k as int,
                                ));
                            }
                            k = k + 1;
                        },
                        None => {
                            proof {
                                let suf = args@.skip(i as int);
                                assert(suf[0] == args@[i as int]);
                                assert(short_spec_index(sv, v[k as int]) >= specs@.len());
                                assert(!args_ok(sv, suf));
                            }
                            return Err(ParseError::UnknownShortOption(c, args[i].clone()));
                        },
                    }
                }
                proof {
                    let suf = args@.skip(i as int);
                    assert(suf[0] == args@[i as int]);
                    assert(suf.drop_first() =~= args@.skip(i + 1 as int));
                    assert(cluster_occurrences(v).take(len - 1) =~= cluster_occurrences(v));
                    assert(options@ =~= opts_before + cluster_occurrences(v));
                    assert(spec_options(sv, suf) =~= cluster_occurrences(v) + spec_options(
                        sv,
                        suf.drop_first(),
                    ));
                }
                i = i + 1;
            }
        } else {
            // The first operand ends the options.
            proof {
                if v.len() >= 2 {
                    assert(v[0] != '-');
                }
                assert(!is_separator(v) && !is_short_cluster(v) && !is_long_option(v));
                assert(args_ok(sv, suffix));
                assert(spec_options(sv, suffix) =~= Seq::<OptionOccurrence>::empty());
                assert(spec_operands(sv, suffix) == suffix);
            }
            reached_operand = true;
        }
    }
    let mut operands: Vec<Field> = Vec::new();
    let ghost start = i as int;
    proof {
        if !skipped_separator && !reached_operand {
            assert(i == n);
            assert(args@.skip(n as int) =~= Seq::<Field>::empty());
            assert(args_ok(sv, args@.skip(n as int)));
            assert(spec_options(sv, args@.skip(n as int)) =~= Seq::<OptionOccurrence>::empty());
            assert(spec_operands(sv, args@.skip(n as int)) =~= Seq::<Field>::empty());
            assert(spec_options(sv, args@) =~= options@);
        }
        assert(args_ok(sv, args@));
        assert(spec_options(sv, args@) =~= options@);
        assert(spec_operands(sv, args@) == args@.skip(start));
    }
    while i < n
        invariant
            0 <= start <= i <= n,
            n == args@.len(),
            operands@ =~= args@.subrange(start, i as int),
        decreases n - i,
    {
        let ghost prev = operands@;
        operands.push(args[i].clone());
        proof {
            assert(operands@ =~= prev.push(args@[i as int]));
            assert(args@.subrange(start, i + 1 as int) =~= args@.subrange(start, i as int).push(
                args@[i as int],
            ));
        }
        i = i + 1;
    }
    proof {
        assert(args@.subrange(start, n as int) =~= args@.skip(start));
        assert(operands@ =~= args@.skip(start));
    }
    Ok((options, operands))
}

} // verus!