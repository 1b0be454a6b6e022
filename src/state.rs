use vstd::prelude::*;
use vstd::string::*;

use crate::number::{decimal, is_digit, lemma_decimal_reads_back, lemma_u32_round_trip};
use crate::text::{
    free_of, has_prefix, lemma_replaced_none, lemma_split_three, replace_all, replaced, split,
    split_on, starts_with, views,
};
use crate::version::{
    dotted, increment_fits, incremented, version_lead, version_line, version_of, Version,
};

verus! {

/// The release channel that a version is published on.
#[derive(Debug, Clone, Copy, PartialEq, Eq, Structural)]
pub enum Suffix {
    Dev,
    Test,
    Rel,
    Alpha,
    Beta,
}

impl Suffix {
    /// The label under which the channel is stored.
    pub open spec fn label(self) -> Seq<char> {
        match self {
            Suffix::Dev => seq!['d', 'e', 'v'],
            Suffix::Test => seq!['t', 'e', 's', 't'],
            Suffix::Rel => seq!['r', 'e', 'l'],
            Suffix::Alpha => seq!['a', 'l', 'p', 'h', 'a'],
            Suffix::Beta => seq!['b', 'e', 't', 'a'],
        }
    }

    /// The channel's label: `dev`, `test`, `rel`, `alpha` or `beta`.
    pub fn to_string(&self) -> (r: String)
        ensures
            r@ == self.label(),
    {
        proof {
            reveal_strlit("dev");
            reveal_strlit("test");
            reveal_strlit("rel");
            reveal_strlit("alpha");
            reveal_strlit("beta");
        }
        let s = match self {
            Suffix::Dev => "dev",
            Suffix::Test => "test",
            Suffix::Rel => "rel",
            Suffix::Alpha => "alpha",
            Suffix::Beta => "beta",
        };
        assert(s@ =~= self.label());
        String::from_str(s)
    }
}

impl Default for Suffix {
    fn default() -> (r: Suffix)
        ensures
            r == Suffix::Dev,
    {
        Suffix::Dev
    }
}

/// The key of the version line.
pub open spec fn version_key() -> Seq<char> {
    seq!['v', 'e', 'r', 's', 'i', 'o', 'n']
}

/// The key of the suffix line.
pub open spec fn suffix_key() -> Seq<char> {
    seq!['s', 'u', 'f', 'f', 'i', 'x']
}

/// The text that introduces the suffix in a state file.
pub open spec fn suffix_lead() -> Seq<char> {
    seq!['s', 'u', 'f', 'f', 'i', 'x', ' ', '=', ' ']
}

/// The version text used when the state file gives none.
pub open spec fn default_version_text() -> Seq<char> {
    seq!['1', '.', '0', '.', '0']
}

/// The first line at index `start` or later that begins with `key`.
pub open spec fn find_from(lines: Seq<Seq<char>>, start: int, key: Seq<char>) -> Option<int>
    decreases lines.len() - start,
{
    if start < 0 || start >= lines.len() {
        None
    } else if starts_with(lines[start], key) {
        Some(start)
    } else {
        find_from(lines, start + 1, key)
    }
}

/// A line that `find_from` finds lies at `start` or later and begins with `key`.
pub proof fn lemma_find_from_found(lines: Seq<Seq<char>>, start: int, key: Seq<char>)
    ensures
        find_from(lines, start, key) matches Some(k) ==> start <= k < lines.len() && starts_with(
            lines[k],
            key,
        ),
    decreases lines.len() - start,
{
    if 0 <= start < lines.len() && !starts_with(lines[start], key) {
        lemma_find_from_found(lines, start + 1, key);
    }
}

/// The lines of a state file that hold the version and the suffix: the first
/// line that begins with `version`, then the first line after it that begins
/// with `suffix`.
pub open spec fn field_lines(text: Seq<char>) -> Option<(int, int)> {
    let lines = split_on(text, '\n');
    match find_from(lines, 0, version_key()) {
        Some(i) => match find_from(lines, i + 1, suffix_key()) {
            Some(j) => Some((i, j)),
            None => None,
        },
        None => None,
    }
}

/// The suffix text that a state file gives, `dev` where it lacks a field.
pub open spec fn suffix_text(text: Seq<char>) -> Seq<char> {
    match field_lines(text) {
        Some((_, j)) => replaced(split_on(text, '\n')[j], suffix_lead(), Seq::empty()),
        None => Suffix::Dev.label(),
    }
}

/// The version text that a state file gives, `1.0.0` where it lacks a field.
pub open spec fn version_text(text: Seq<char>) -> Seq<char> {
    match field_lines(text) {
        Some((i, _)) => replaced(split_on(text, '\n')[i], version_lead(), Seq::empty()),
        None => default_version_text(),
    }
}

/// The full text of a state file for a version and a suffix.
pub open spec fn state_text(v: Version, suffix: Seq<char>) -> Seq<char> {
    version_line(v) + seq!['\n'] + suffix_lead() + suffix + seq!['\n']
}

/// Where no line at `start` or later begins with `key`, none is found.
proof fn lemma_find_from_absent(lines: Seq<Seq<char>>, start: int, key: Seq<char>)
    requires
        0 <= start,
        forall|k: int| start <= k < lines.len() ==> !starts_with(#[trigger] lines[k], key),
    ensures
        find_from(lines, start, key) is None,
    decreases lines.len() - start,
{
    if start < lines.len() {
        lemma_find_from_absent(lines, start + 1, key);
    }
}

/// A state file in which no line begins with `version`, an empty one among
/// them, loads as the default state: version `1.0.0`, suffix `dev`.
pub proof fn lemma_default_without_version_line(text: Seq<char>)
    requires
        forall|k: int|
            0 <= k < split_on(text, '\n').len() ==> !starts_with(
                #[trigger] split_on(text, '\n')[k],
                version_key(),
            ),
    ensures
        suffix_text(text) == Suffix::Dev.label(),
        version_text(text) == default_version_text(),
        version_of(version_text(text)) == Some(Version { major: 1, minor: 0, patch: 0 }),
{
    lemma_find_from_absent(split_on(text, '\n'), 0, version_key());
    let d = default_version_text();
    let one = seq!['1'];
    let zero = seq!['0'];
    assert(d =~= one + seq!['.'] + zero + seq!['.'] + zero);
    lemma_split_three(one, zero, zero, '.');
    crate::number::lemma_u32_round_trip(1);
    crate::number::lemma_u32_round_trip(0);
    assert(decimal(1) =~= one);
    assert(decimal(0) =~= zero);
}

/// The empty file has no line that begins with `version`.
pub proof fn lemma_empty_has_no_version_line()
    ensures
        forall|k: int|
            0 <= k < split_on(Seq::<char>::empty(), '\n').len() ==> !starts_with(
                #[trigger] split_on(Seq::<char>::empty(), '\n')[k],
                version_key(),
            ),
{
    assert(split_on(Seq::<char>::empty(), '\n') =~= seq![Seq::<char>::empty()]);
}

/// The numeral of `n` holds only digits.
proof fn lemma_decimal_digits(n: nat, c: char)
    requires
        !is_digit(c),
    ensures
        free_of(decimal(n), c),
{
    lemma_decimal_reads_back(n);
}

/// Loading the text written for a version and a suffix gives them back: the
/// suffix text read from it is the suffix's label, and its version text reads
/// as the same version. Writing what was loaded thus reproduces the text.
pub proof fn lemma_load_after_serialize(v: Version, suffix: Suffix)
    ensures
        suffix_text(state_text(v, suffix.label())) == suffix.label(),
        version_of(version_text(state_text(v, suffix.label()))) == Some(v),
        state_text(v, suffix.label()) == state_text(
            version_of(version_text(state_text(v, suffix.label())))->0,
            suffix_text(state_text(v, suffix.label())),
        ),
{
    let label = suffix.label();
    let text = state_text(v, label);
    let e = Seq::<char>::empty();
    let da = decimal(v.major as nat);
    let db = decimal(v.minor as nat);
    let dc = decimal(v.patch as nat);
    lemma_decimal_digits(v.major as nat, '.');
    lemma_decimal_digits(v.minor as nat, '.');
    lemma_decimal_digits(v.patch as nat, '.');
    lemma_decimal_digits(v.major as nat, '\n');
    lemma_decimal_digits(v.minor as nat, '\n');
    lemma_decimal_digits(v.patch as nat, '\n');
    lemma_decimal_digits(v.major as nat, 'v');
    lemma_decimal_digits(v.minor as nat, 'v');
    lemma_decimal_digits(v.patch as nat, 'v');
    let d = dotted(v);
    assert(d =~= da + seq!['.'] + db + seq!['.'] + dc);
    assert(free_of(d, '\n'));
    assert(free_of(d, 'v'));
    let line_a = version_line(v);
    let line_b = suffix_lead() + label;
    assert(free_of(line_a, '\n'));
    assert(free_of(line_b, '\n'));
    assert(free_of(e, '\n'));
    lemma_split_three(line_a, line_b, e, '\n');
    assert(text =~= line_a + seq!['\n'] + line_b + seq!['\n'] + e);
    let lines = split_on(text, '\n');
    assert(lines == seq![line_a, line_b, e]);
    assert(line_a.take(7) =~= version_key());
    assert(line_b.take(6) =~= suffix_key());
    assert(find_from(lines, 0, version_key()) == Some(0int));
    assert(find_from(lines, 1, suffix_key()) == Some(1int));
    assert(field_lines(text) == Some((0int, 1int)));
    // the suffix line loses its lead and keeps the label
    assert(line_b.take(9) =~= suffix_lead());
    assert(line_b.skip(9) =~= label);
    assert(replaced(label, suffix_lead(), e) == label);
    assert(replaced(line_b, suffix_lead(), e) =~= e + replaced(label, suffix_lead(), e));
    assert(suffix_text(text) =~= label);
    // the version line loses its lead and keeps the dotted numerals
    assert(line_a.take(10) =~= version_lead());
    assert(line_a.skip(10) =~= d);
    lemma_replaced_none(d, version_lead(), e);
    assert(replaced(line_a, version_lead(), e) =~= e + replaced(d, version_lead(), e));
    assert(version_text(text) =~= d);
    lemma_split_three(da, db, dc, '.');
    lemma_u32_round_trip(v.major);
    lemma_u32_round_trip(v.minor);
    lemma_u32_round_trip(v.patch);
    assert(split_on(d, '.') == seq![da, db, dc]);
}

/// The index of the first line at `start` or later that begins with `key`.
fn find_line(lines: &Vec<String>, start: usize, key: &str) -> (r: Option<usize>)
    ensures
        match r {
            Some(k) => find_from(views(lines@), start as int, key@) == Some(k as int),
            None => find_from(views(lines@), start as int, key@) is None,
        },
{
    let mut k: usize = start;
    while k < lines.len()
        invariant
            start <= k,
            find_from(views(lines@), start as int, key@) == find_from(
                views(lines@),
                k as int,
                key@,
            ),
        decreases lines.len() - k,
    {
        if has_prefix(lines[k].as_str(), key) {
            return Some(k);
        }
        k = k + 1;
    }
    None
}

/// The two fields of a state file, as text.
#[derive(Debug, Clone)]
pub struct Config {
    pub suffix: String,
    pub version: String,
}

impl Config {
    /// Reads the fields from the text of a state file. The version comes from
    /// the first line that begins with `version`, the suffix from the first
    /// line after it that begins with `suffix`, each with its leading
    /// `key = ` taken out. Where either line is missing the fields are `dev`
    /// and `1.0.0`.
    pub fn parse(contents: &str) -> (r: Config)
        ensures
            r.suffix@ == suffix_text(contents@),
            r.version@ == version_text(contents@),
    {
        proof {
            reveal_strlit("version");
            reveal_strlit("suffix");
            reveal_strlit("version = ");
            reveal_strlit("suffix = ");
            reveal_strlit("");
            reveal_strlit("1.0.0");
            assert("version"@ =~= version_key());
            assert("suffix"@ =~= suffix_key());
            assert("version = "@ =~= version_lead());
            assert("suffix = "@ =~= suffix_lead());
            assert(""@ =~= Seq::<char>::empty());
            assert("1.0.0"@ =~= default_version_text());
        }
        let lines = split(contents, '\n');
        let version = find_line(&lines, 0, "version");
        match version {
            Some(i) => {
                if i < usize::MAX {
                    let suffix = find_line(&lines, i + 1, "suffix");
                    match suffix {
                        Some(j) => {
                            let ghost lv = views(lines@);
                            proof {
                                lemma_find_from_found(lv, 0, version_key());
                                lemma_find_from_found(lv, i + 1, suffix_key());
                            }
                            assert(lv[i as int] == lines@[i as int]@);
                            assert(lv[j as int] == lines@[j as int]@);
                            return Config {
                                suffix: replace_all(lines[j].as_str(), "suffix = ", ""),
                                version: replace_all(lines[i].as_str(), "version = ", ""),
                            };
                        },
                        None => {},
                    }
                } else {
                    assert(find_from(views(lines@), i + 1, suffix_key()) is None);
                }
            },
            None => {},
        }
        Config { suffix: Suffix::Dev.to_string(), version: String::from_str("1.0.0") }
    }

    /// The line `suffix = <suffix>`, with its line break.
    pub fn suffix_line(&self) -> (r: String)
        ensures
            r@ == suffix_lead() + self.suffix@ + seq!['\n'],
    {
        proof {
            reveal_strlit("suffix = ");
            reveal_strlit("\n");
        }
        let mut out = String::from_str("suffix = ");
        out.append(self.suffix.as_str());
        out.append("\n");
        assert(out@ =~= suffix_lead() + self.suffix@ + seq!['\n']);
        out
    }
}

/// Writes state files for the fields read from one.
pub struct Rw(pub Config);

impl Rw {
    /// The full text of the state file for `version` and the suffix held:
    /// the version line, a line break, then the suffix line.
    pub fn serialize(&self, version: &Version) -> (r: String)
        ensures
            r@ == state_text(*version, self.0.suffix@),
    {
        proof {
            reveal_strlit("\n");
        }
        let mut out = version.to_line();
        out.append("\n");
        out.append(self.0.suffix_line().as_str());
        assert(out@ =~= state_text(*version, self.0.suffix@));
        out
    }
}

/// Why the state could not be moved to the next version.
#[derive(Debug, Clone, Copy, PartialEq, Eq, Structural)]
pub enum UpdateError {
    /// The version field is not three decimal numbers separated by dots.
    MalformedVersion,
    /// A field that the increment raises is already at the largest `u32`.
    Overflow,
}

/// The new text of a state file after one carrying increment of its version;
/// the suffix is kept as it stands.
pub fn update(contents: &str) -> (r: Result<String, UpdateError>)
    ensures
        match version_of(version_text(contents@)) {
            None => r == Err::<String, UpdateError>(UpdateError::MalformedVersion),
            Some(v) => if increment_fits(v) {
                r is Ok && r->Ok_0@ == state_text(incremented(v), suffix_text(contents@))
            } else {
                r == Err::<String, UpdateError>(UpdateError::Overflow)
            },
        },
{
    let conf = Config::parse(contents);
    if !Version::is_version(conf.version.as_str()) {
        return Err(UpdateError::MalformedVersion);
    }
    let mut v = Version::parse(conf.version.as_str());
    if !v.fits_increment() {
        return Err(UpdateError::Overflow);
    }
    v.incr();
    let rw = Rw(conf);
    Ok(rw.serialize(&v))
}

} // verus!
