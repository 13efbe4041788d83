//! Command-line options: `-k value` and `--key value` pairs.

use vstd::prelude::*;
use vstd::string::{StrSliceExecFns, StringExecFns};
use crate::text::{has_prefix, same_text, strip_prefixes, strip_repeated};

verus! {

/// Options read from a command line: each key once, with the value given last.
#[derive(Debug)]
pub struct Options {
    entries: Vec<(String, String)>,
}

/// The map that a list of key and value pairs makes, a later pair winning.
pub open spec fn pairs_map(s: Seq<(Seq<char>, Seq<char>)>) -> Map<Seq<char>, Seq<char>>
    decreases s.len(),
{
    if s.len() == 0 {
        Map::empty()
    } else {
        pairs_map(s.drop_last()).insert(s.last().0, s.last().1)
    }
}

pub open spec fn option_views(v: Seq<(String, String)>) -> Seq<(Seq<char>, Seq<char>)> {
    v.map_values(|p: (String, String)| (p.0@, p.1@))
}

pub open spec fn distinct_keys(s: Seq<(Seq<char>, Seq<char>)>) -> bool {
    forall|i: int, j: int| 0 <= i < j < s.len() ==> (#[trigger] s[i]).0 != (#[trigger] s[j]).0
}

proof fn lemma_pairs_map(s: Seq<(Seq<char>, Seq<char>)>)
    requires
        distinct_keys(s),
    ensures
        pairs_map(s).dom().finite(),
        pairs_map(s).dom().len() == s.len(),
        forall|k: Seq<char>| pairs_map(s).contains_key(k) <==> exists|i: int| 0 <= i < s.len() && (#[trigger] s[i]).0 == k,
        forall|i: int| 0 <= i < s.len() ==> pairs_map(s)[(#[trigger] s[i]).0] == s[i].1,
    decreases s.len(),
{
    if s.len() > 0 {
        let t = s.drop_last();
        assert(distinct_keys(t)) by {
            assert forall|i: int, j: int| 0 <= i < j < t.len() implies (#[trigger] t[i]).0 != (#[trigger] t[j]).0 by {
                assert(t[i] == s[i] && t[j] == s[j]);
            }
        }
        lemma_pairs_map(t);
        if pairs_map(t).contains_key(s.last().0) {
            let i = choose|i: int| 0 <= i < t.len() && (#[trigger] t[i]).0 == s.last().0;
            assert(s[i] == t[i]);
            assert(false);
        }
        assert forall|k: Seq<char>| pairs_map(s).contains_key(k) implies exists|i: int| 0 <= i < s.len() && (#[trigger] s[i]).0 == k by {
            if k != s.last().0 {
                let i = choose|i: int| 0 <= i < t.len() && (#[trigger] t[i]).0 == k;
                assert(s[i] == t[i]);
            } else {
                assert(s[s.len() - 1].0 == k);
            }
        }
        assert forall|k: Seq<char>| (exists|i: int| 0 <= i < s.len() && (#[trigger] s[i]).0 == k) implies pairs_map(s).contains_key(k) by {
            let i = choose|i: int| 0 <= i < s.len() && (#[trigger] s[i]).0 == k;
            if i < s.len() - 1 {
                assert(t[i] == s[i]);
            }
        }
        assert forall|i: int| 0 <= i < s.len() implies pairs_map(s)[(#[trigger] s[i]).0] == s[i].1 by {
            if i < s.len() - 1 {
                assert(t[i] == s[i]);
            }
        }
    }
}

impl View for Options {
    type V = Map<Seq<char>, Seq<char>>;

    closed spec fn view(&self) -> Map<Seq<char>, Seq<char>> {
        pairs_map(option_views(self.entries@))
    }
}

impl Options {
    #[verifier::type_invariant]
    spec fn wf(self) -> bool {
        distinct_keys(option_views(self.entries@))
    }

    pub fn new() -> (o: Options)
        ensures
            o@ == Map::<Seq<char>, Seq<char>>::empty(),
    {
        let o = Options { entries: Vec::new() };
        assert(option_views(o.entries@) =~= Seq::<(Seq<char>, Seq<char>)>::empty());
        o
    }

    fn position(&self, key: &str) -> (r: Option<usize>)
        ensures
            match r {
                Some(i) => i < self.entries@.len() && self.entries@[i as int].0@ == key@
                    && self@.contains_key(key@) && self@[key@] == self.entries@[i as int].1@,
                None => !self@.contains_key(key@),
            },
    {
        proof {
            use_type_invariant(self);
            lemma_pairs_map(option_views(self.entries@));
        }
        let ghost e = option_views(self.entries@);
        let mut i: usize = 0;
        while i < self.entries.len()
            invariant
                e == option_views(self.entries@),
                i <= self.entries@.len(),
                forall|j: int| 0 <= j < i ==> (#[trigger] e[j]).0 != key@,
            decreases self.entries@.len() - i,
        {
            if same_text(self.entries[i].0.as_str(), key) {
                assert(e[i as int].0 == key@);
                proof {
                    use_type_invariant(self);
                    lemma_pairs_map(e);
                }
                return Some(i);
            }
            i = i + 1;
        }
        proof {
            use_type_invariant(self);
            lemma_pairs_map(e);
        }
        None
    }

    /// Sets `key` to `value`, replacing an earlier value.
    pub fn insert(&mut self, key: String, value: String)
        ensures
            final(self)@ == old(self)@.insert(key@, value@),
    {
        proof {
            use_type_invariant(&*self);
        }
        let ghost e = option_views(self.entries@);
        let found = self.position(key.as_str());
        let mut entries: Vec<(String, String)> = Vec::new();
        std::mem::swap(&mut entries, &mut self.entries);
        assert(option_views(entries@) == e);
        match found {
            Some(i) => {
                let ghost t = e.update(i as int, (key@, value@));
                entries[i] = (key, value);
                assert(option_views(entries@) =~= t);
                proof {
                    assert(distinct_keys(t)) by {
                        assert forall|a: int, b: int| 0 <= a < b < t.len() implies (#[trigger] t[a]).0 != (#[trigger] t[b]).0 by {
                            assert(e[a].0 != e[b].0);
                        }
                    }
                    lemma_pairs_map(e);
                    lemma_pairs_map(t);
                    assert forall|k: Seq<char>| #[trigger] pairs_map(t).contains_key(k) == pairs_map(e).insert(key@, value@).contains_key(k) by {
                        if pairs_map(e).contains_key(k) {
                            let j = choose|j: int| 0 <= j < e.len() && (#[trigger] e[j]).0 == k;
                            assert(t[j].0 == k);
                        }
                        if pairs_map(t).contains_key(k) {
                            let j = choose|j: int| 0 <= j < t.len() && (#[trigger] t[j]).0 == k;
                            assert(e[j].0 == k);
                        }
                    }
                    assert forall|k: Seq<char>| #[trigger] pairs_map(t).contains_key(k) implies pairs_map(t)[k] == pairs_map(e).insert(key@, value@)[k] by {
                        let j = choose|j: int| 0 <= j < t.len() && (#[trigger] t[j]).0 == k;
                        assert(e[i as int].0 == key@);
                        if j != i {
                            assert(t[j] == e[j]);
                            assert(e[j].0 != e[i as int].0);
                        } else {
                            assert(t[i as int] == (key@, value@));
                        }
                    }
                    assert(pairs_map(t) =~= pairs_map(e).insert(key@, value@));
                }
            },
            None => {
                let ghost t = e.push((key@, value@));
                entries.push((key, value));
                assert(option_views(entries@) =~= t);
                proof {
                    lemma_pairs_map(e);
                    assert(distinct_keys(t)) by {
                        assert forall|a: int, b: int| 0 <= a < b < t.len() implies (#[trigger] t[a]).0 != (#[trigger] t[b]).0 by {
                            if b == e.len() {
                                assert(t[a] == e[a]);
                            } else {
                                assert(t[a] == e[a] && t[b] == e[b]);
                            }
                        }
                    }
                    assert(t.drop_last() =~= e);
                }
            },
        }
        self.entries = entries;
    }

    /// The value given for `key`.
    pub fn get(&self, key: &str) -> (r: Option<&String>)
        ensures
            match r {
                Some(v) => self@.contains_key(key@) && v@ == self@[key@],
                None => !self@.contains_key(key@),
            },
    {
        match self.position(key) {
            Some(i) => Some(&self.entries[i].1),
            None => None,
        }
    }

    /// How many keys were given.
    pub fn len(&self) -> (r: usize)
        ensures
            r == self@.dom().len(),
    {
        proof {
            use_type_invariant(self);
            lemma_pairs_map(option_views(self.entries@));
        }
        self.entries.len()
    }

    /// Whether no key was given.
    pub fn is_empty(&self) -> (r: bool)
        ensures
            r == (self@.dom().len() == 0),
    {
        self.len() == 0
    }
}

/// Why a command line was refused.
#[derive(Debug, Clone, Copy, PartialEq, Eq, Structural)]
pub enum ArgsErrorKind {
    /// An option with nothing after its dashes.
    InvalidOption,
    /// An option that is last, or followed by another option.
    MissingValue,
}

/// A refused command line: what was wrong, and the argument at fault.
#[derive(Debug, Clone)]
pub struct ArgsError {
    pub kind: ArgsErrorKind,
    pub arg: String,
}

impl ArgsError {
    /// A description of the error.
    pub fn to_string(&self) -> String {
        match self.kind {
            ArgsErrorKind::InvalidOption => "Invalid option: ".to_owned().concat(self.arg.as_str()),
            ArgsErrorKind::MissingValue => "Option ".to_owned().concat(self.arg.as_str()).concat(" requires a value"),
        }
    }
}

/// How reading a command line ends.
pub enum ArgsView {
    Parsed(Map<Seq<char>, Seq<char>>),
    /// Refused at the argument of this index.
    Refused(ArgsErrorKind, int),
}

pub open spec fn arg_views(a: Seq<String>) -> Seq<Seq<char>> {
    a.map_values(|s: String| s@)
}

/// The dashes that make `a` an option: `--`, or `-` before something more.
pub open spec fn option_prefix(a: Seq<char>) -> Option<Seq<char>> {
    if "--"@.is_prefix_of(a) {
        Some("--"@)
    } else if "-"@.is_prefix_of(a) && a.len() > 1 {
        Some("-"@)
    } else {
        None
    }
}

/// The key and the value of the option at `i`: the option without its
/// leading dashes, and the next argument, which must not start with `-`.
pub open spec fn option_pair(args: Seq<Seq<char>>, i: int, prefix: Seq<char>) -> Result<(Seq<char>, Seq<char>), ArgsErrorKind> {
    let key = strip_repeated(args[i], prefix);
    if key.len() == 0 {
        Err(ArgsErrorKind::InvalidOption)
    } else if i + 1 < args.len() && !"-"@.is_prefix_of(args[i + 1]) {
        Ok((key, args[i + 1]))
    } else {
        Err(ArgsErrorKind::MissingValue)
    }
}

/// Reads options from argument `i` on into `m`. `--` ends the options; `-`
/// and arguments that are no option are skipped.
pub open spec fn options_from(args: Seq<Seq<char>>, i: int, m: Map<Seq<char>, Seq<char>>) -> ArgsView
    decreases args.len() - i,
{
    if i < 0 || i >= args.len() || args[i] == "--"@ {
        ArgsView::Parsed(m)
    } else if args[i] == "-"@ {
        options_from(args, i + 1, m)
    } else {
        match option_prefix(args[i]) {
            None => options_from(args, i + 1, m),
            Some(p) => match option_pair(args, i, p) {
                Err(kind) => ArgsView::Refused(kind, i),
                Ok((k, v)) => options_from(args, i + 2, m.insert(k, v)),
            },
        }
    }
}

/// Reads the option at `args[i]`, which starts with `prefix`, and its value
/// into `options`; the result is the index of the next argument.
pub fn process_option(prefix: &str, args: &[String], i: usize, options: &mut Options) -> (r: Result<usize, ArgsError>)
    requires
        i < args@.len(),
        prefix@.len() > 0,
    ensures
        match option_pair(arg_views(args@), i as int, prefix@) {
            Ok((k, v)) => r == Ok::<usize, ArgsError>((i + 2) as usize) && final(options)@ == old(options)@.insert(k, v),
            Err(kind) => r matches Err(e) && e.kind == kind && e.arg@ == args@[i as int]@
                && final(options)@ == old(options)@,
        },
{
    let arg = &args[i];
    let key = strip_prefixes(arg.as_str(), prefix);
    assert(arg_views(args@)[i as int] == arg@);
    if key.unicode_len() == 0 {
        return Err(ArgsError { kind: ArgsErrorKind::InvalidOption, arg: arg.clone() });
    }
    if i + 1 < args.len() && !has_prefix(args[i + 1].as_str(), "-") {
        assert(arg_views(args@)[i + 1] == args@[i + 1]@);
        options.insert(key.to_owned(), args[i + 1].clone());
        Ok(i + 2)
    } else {
        Err(ArgsError { kind: ArgsErrorKind::MissingValue, arg: arg.clone() })
    }
}

/// Reads the options of a command line.
pub fn parse_args(args: &[String]) -> (r: Result<Options, ArgsError>)
    ensures
        match options_from(arg_views(args@), 0, Map::empty()) {
            ArgsView::Parsed(m) => r matches Ok(o) && o@ == m,
            ArgsView::Refused(kind, i) => r matches Err(e) && e.kind == kind && 0 <= i < args@.len()
                && e.arg@ == args@[i]@,
        },
{
    proof {
        reveal_strlit("--");
        reveal_strlit("-");
    }
    let ghost a = arg_views(args@);
    let mut options = Options::new();
    let mut i: usize = 0;
    while i < args.len()
        invariant
            a == arg_views(args@),
            i <= args@.len() + 1,
            options_from(a, 0, Map::empty()) == options_from(a, i as int, options@),
        ensures
            options_from(a, 0, Map::empty()) == ArgsView::Parsed(options@),
        decreases args@.len() + 1 - i,
    {
        proof {
            reveal_strlit("--");
            reveal_strlit("-");
        }
        let arg = args[i].as_str();
        assert(a[i as int] == arg@);
        if same_text(arg, "--") {
            break;
        }
        if same_text(arg, "-") {
            i = i + 1;
            continue;
        }
        if has_prefix(arg, "--") {
            i = match process_option("--", args, i, &mut options) {
                Ok(next) => next,
                Err(e) => return Err(e),
            };
        } else if has_prefix(arg, "-") && arg.unicode_len() > 1 {
            i = match process_option("-", args, i, &mut options) {
                Ok(next) => next,
                Err(e) => return Err(e),
            };
        } else {
            i = i + 1;
        }
    }
    Ok(options)
}

} // verus!
