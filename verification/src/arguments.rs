//! The decisions of the command-line program: reading the algorithm and the
//! neighbour rule from their names, filling in defaults, checking answers of
//! the dialogue, and deciding on the name of the GIF file.
use vstd::prelude::*;

use crate::gameoflife::{conway_birth, conway_survival, NeighborRule, Rule};

verus! {

/// Available algorithms to calculate the time steps
#[derive(Clone, Copy, Debug, PartialEq, Eq, Structural)]
pub enum Algorithm {
    Std,
    Conv,
}

/// What `str::to_lowercase` returns for a string.
pub uninterp spec fn lowercase_of(s: Seq<char>) -> Seq<char>;

/// Every character is an ASCII character.
pub open spec fn is_ascii_text(s: Seq<char>) -> bool {
    forall|i: int| 0 <= i < s.len() ==> (#[trigger] s[i]) as u32 <= 127
}

/// An ASCII capital letter as a small letter; any other character unchanged.
pub open spec fn ascii_lower(c: char) -> char {
    if 65 <= c as u32 <= 90 {
        ((c as u32) + 32) as char
    } else {
        c
    }
}

/// An ASCII small letter as a capital letter; any other character unchanged.
pub open spec fn ascii_upper(c: char) -> char {
    if 97 <= c as u32 <= 122 {
        ((c as u32) - 32) as char
    } else {
        c
    }
}

/// The text with its ASCII capital letters made small.
pub open spec fn ascii_lowercase(s: Seq<char>) -> Seq<char> {
    Seq::new(s.len(), |i: int| ascii_lower(s[i]))
}

/// The text with its ASCII small letters made capital.
pub open spec fn ascii_uppercase(s: Seq<char>) -> Seq<char> {
    Seq::new(s.len(), |i: int| ascii_upper(s[i]))
}

/// `str::to_lowercase`. Claimed: the result is `lowercase_of` the argument, a
/// function of the characters alone (Unicode's lowercase mapping); and, as the
/// Unicode mapping of the ASCII range is, an ASCII text comes back with its
/// capital letters `A` to `Z` made small and every other character kept.
/// Nothing more is claimed of other texts.
#[verifier::external_body]
fn to_lowercase(s: &str) -> (r: String)
    ensures
        r@ == lowercase_of(s@),
        is_ascii_text(s@) ==> r@ == ascii_lowercase(s@),
{
    s.to_lowercase()
}

/// What `Path::extension` returns for a path written as a string, as a string.
pub uninterp spec fn path_extension_of(path: Seq<char>) -> Option<Seq<char>>;

/// `std::path::Path::extension` on the path written `path`, the extension read
/// back as a string. Claimed: the result is `path_extension_of(path)`, a
/// function of the text alone under the path syntax of the target the crate is
/// built for. An extension cut from valid UTF-8 at a `.` is valid UTF-8, so the
/// conversion loses nothing.
#[verifier::external_body]
fn path_extension(path: &str) -> (e: Option<String>)
    ensures
        e is Some <==> path_extension_of(path@) is Some,
        e matches Some(s) ==> s@ == path_extension_of(path@)->0,
{
    match std::path::Path::new(path).extension() {
        Some(ext) => Some(ext.to_string_lossy().into_owned()),
        None => None,
    }
}

/// What `PathBuf::set_extension` makes of a path written as a string.
pub uninterp spec fn path_with_extension_of(path: Seq<char>, extension: Seq<char>) -> Seq<char>;

/// `std::path::PathBuf::set_extension` on the path written `path`, read back as
/// a string. Claimed: the result is `path_with_extension_of(path, extension)`,
/// a function of the two texts alone under the path syntax of the target the
/// crate is built for. The path is cut at a `.` or at its end and the
/// extension appended, so it stays valid UTF-8 and the conversion loses nothing.
/// `set_extension` panics on an extension that holds a path separator, which
/// is left out.
#[verifier::external_body]
fn path_set_extension(path: &str, extension: &str) -> (r: String)
    requires
        forall|i: int| 0 <= i < extension@.len() ==> #[trigger] extension@[i] != '/' && extension@[i] != '\\',
    ensures
        r@ == path_with_extension_of(path@, extension@),
{
    let mut buf = std::path::PathBuf::from(path);
    buf.set_extension(extension);
    buf.to_string_lossy().into_owned()
}

/// The two strings hold the same characters.
pub fn str_equal(a: &str, b: &str) -> (eq: bool)
    ensures
        eq == (a@ == b@),
{
    let n = a.unicode_len();
    if n != b.unicode_len() {
        return false;
    }
    let mut i: usize = 0;
    while i < n
        invariant
            n == a@.len(),
            n == b@.len(),
            i <= n,
            forall|k: int| 0 <= k < i ==> a@[k] == b@[k],
        decreases n - i,
    {
        if a.get_char(i) != b.get_char(i) {
            return false;
        }
        i = i + 1;
    }
    assert(a@ =~= b@);
    true
}

/// The algorithm named by a lowercase name.
pub open spec fn algorithm_named(lower: Seq<char>) -> Option<Algorithm> {
    if lower == "std"@ || lower == "standard"@ {
        Some(Algorithm::Std)
    } else if lower == "conv"@ || lower == "convolution"@ {
        Some(Algorithm::Conv)
    } else {
        None
    }
}

/// The neighbour rule named by a lowercase name.
pub open spec fn neighbor_rule_named(lower: Seq<char>) -> Option<NeighborRule> {
    if lower == "moore"@ {
        Some(NeighborRule::Moore)
    } else if lower == "vonneumann"@ {
        Some(NeighborRule::VonNeumann)
    } else {
        None
    }
}

/// The name shown for an algorithm.
pub open spec fn algorithm_name(a: Algorithm) -> Seq<char> {
    match a {
        Algorithm::Std => "standard"@,
        Algorithm::Conv => "convolution"@,
    }
}

/// The name shown for a neighbour rule.
pub open spec fn neighbor_rule_name(n: NeighborRule) -> Seq<char> {
    match n {
        NeighborRule::Moore => "Moore"@,
        NeighborRule::VonNeumann => "VonNeumann"@,
    }
}

/// A text of ASCII letters is ASCII in either case, and making it capital and
/// then small gives the same as making it small.
pub proof fn lemma_ascii_letters(s: Seq<char>)
    requires
        forall|i: int|
            0 <= i < s.len() ==> (65 <= (#[trigger] s[i]) as u32 <= 90 || 97 <= s[i] as u32 <= 122),
    ensures
        is_ascii_text(s),
        is_ascii_text(ascii_uppercase(s)),
        ascii_lowercase(ascii_uppercase(s)) == ascii_lowercase(s),
{
    assert forall|i: int| 0 <= i < s.len() implies #[trigger] ascii_lowercase(ascii_uppercase(s))[i]
        == ascii_lowercase(s)[i] by {
        let c = s[i];
        if 97 <= c as u32 <= 122 {
            let u = (c as u32 - 32) as char;
            assert(u as u32 == c as u32 - 32);
            let d = ((u as u32) + 32) as char;
            assert(d as u32 == c as u32);
            vstd::utf8::char_u32_cast(d, d as u32);
            vstd::utf8::char_u32_cast(c, c as u32);
            assert(d == c);
        }
    }
    assert forall|i: int| 0 <= i < s.len() implies (#[trigger] ascii_uppercase(s)[i]) as u32 <= 127 by {
        let c = s[i];
        if 97 <= c as u32 <= 122 {
            assert(((c as u32 - 32) as char) as u32 == c as u32 - 32);
        }
    }
    assert(ascii_lowercase(ascii_uppercase(s)) =~= ascii_lowercase(s));
}

/// The name shown for an algorithm, in small or in capital letters, reads
/// back as that algorithm.
pub proof fn lemma_algorithm_names_read_back(a: Algorithm)
    ensures
        is_ascii_text(algorithm_name(a)),
        is_ascii_text(ascii_uppercase(algorithm_name(a))),
        algorithm_named(ascii_lowercase(algorithm_name(a))) == Some(a),
        algorithm_named(ascii_lowercase(ascii_uppercase(algorithm_name(a)))) == Some(a),
{
    reveal_strlit("standard");
    reveal_strlit("convolution");
    reveal_strlit("std");
    reveal_strlit("conv");
    let s = algorithm_name(a);
    lemma_ascii_letters(s);
    assert(ascii_lowercase(s) =~= s);
}

/// The name shown for a neighbour rule, in small or in capital letters, reads
/// back as that neighbour rule.
pub proof fn lemma_neighbor_rule_names_read_back(n: NeighborRule)
    ensures
        is_ascii_text(neighbor_rule_name(n)),
        is_ascii_text(ascii_uppercase(neighbor_rule_name(n))),
        neighbor_rule_named(ascii_lowercase(neighbor_rule_name(n))) == Some(n),
        neighbor_rule_named(ascii_lowercase(ascii_uppercase(neighbor_rule_name(n)))) == Some(n),
{
    reveal_strlit("Moore");
    reveal_strlit("VonNeumann");
    reveal_strlit("moore");
    reveal_strlit("vonneumann");
    let s = neighbor_rule_name(n);
    lemma_ascii_letters(s);
    match n {
        NeighborRule::Moore => {
            assert(ascii_lowercase(s) =~= "moore"@);
        },
        NeighborRule::VonNeumann => {
            assert(ascii_lowercase(s) =~= "vonneumann"@);
        },
    }
}

impl Algorithm {
    /// The algorithm named by an already lowercase name.
    pub fn from_lowercase(lower: &str) -> (a: Option<Algorithm>)
        ensures
            a == algorithm_named(lower@),
    {
        if str_equal(lower, "std") || str_equal(lower, "standard") {
            Some(Algorithm::Std)
        } else if str_equal(lower, "conv") || str_equal(lower, "convolution") {
            Some(Algorithm::Conv)
        } else {
            None
        }
    }

    /// Reads an algorithm from its name, whatever its case:
    /// `std` or `standard`, `conv` or `convolution`.
    pub fn parse(input: &str) -> (a: Result<Algorithm, ()>)
        ensures
            a is Ok <==> algorithm_named(lowercase_of(input@)) is Some,
            a matches Ok(alg) ==> algorithm_named(lowercase_of(input@)) == Some(alg),
            is_ascii_text(input@) ==> lowercase_of(input@) == ascii_lowercase(input@),
    {
        let lower = to_lowercase(input);
        match Algorithm::from_lowercase(lower.as_str()) {
            Some(alg) => Ok(alg),
            None => Err(()),
        }
    }

    /// The name shown to the user.
    pub fn name(&self) -> (s: &'static str)
        ensures
            s@ == algorithm_name(*self),
    {
        match self {
            Algorithm::Std => "standard",
            Algorithm::Conv => "convolution",
        }
    }
}

impl std::str::FromStr for Algorithm {
    type Err = ();

    fn from_str(input: &str) -> (a: Result<Algorithm, ()>)
        ensures
            a is Ok <==> algorithm_named(lowercase_of(input@)) is Some,
            a matches Ok(alg) ==> algorithm_named(lowercase_of(input@)) == Some(alg),
            is_ascii_text(input@) ==> lowercase_of(input@) == ascii_lowercase(input@),
    {
        Algorithm::parse(input)
    }
}

impl NeighborRule {
    /// The neighbour rule named by an already lowercase name.
    pub fn from_lowercase(lower: &str) -> (n: Option<NeighborRule>)
        ensures
            n == neighbor_rule_named(lower@),
    {
        if str_equal(lower, "moore") {
            Some(NeighborRule::Moore)
        } else if str_equal(lower, "vonneumann") {
            Some(NeighborRule::VonNeumann)
        } else {
            None
        }
    }

    /// Reads a neighbour rule from its name, whatever its case:
    /// `Moore` or `VonNeumann`.
    pub fn parse(input: &str) -> (n: Result<NeighborRule, ()>)
        ensures
            n is Ok <==> neighbor_rule_named(lowercase_of(input@)) is Some,
            n matches Ok(rule) ==> neighbor_rule_named(lowercase_of(input@)) == Some(rule),
            is_ascii_text(input@) ==> lowercase_of(input@) == ascii_lowercase(input@),
    {
        let lower = to_lowercase(input);
        match NeighborRule::from_lowercase(lower.as_str()) {
            Some(rule) => Ok(rule),
            None => Err(()),
        }
    }

    /// The name shown to the user.
    pub fn name(&self) -> (s: &'static str)
        ensures
            s@ == neighbor_rule_name(*self),
    {
        match self {
            NeighborRule::Moore => "Moore",
            NeighborRule::VonNeumann => "VonNeumann",
        }
    }
}

impl std::str::FromStr for NeighborRule {
    type Err = ();

    fn from_str(input: &str) -> (n: Result<NeighborRule, ()>)
        ensures
            n is Ok <==> neighbor_rule_named(lowercase_of(input@)) is Some,
            n matches Ok(rule) ==> neighbor_rule_named(lowercase_of(input@)) == Some(rule),
            is_ascii_text(input@) ==> lowercase_of(input@) == ascii_lowercase(input@),
    {
        NeighborRule::parse(input)
    }
}

/// The settings read from the command line, defaults filled in.
pub struct Settings {
    pub algorithm: Algorithm,
    pub rule: Rule,
    pub iterations: usize,
    pub time_per_iteration_ms: u64,
}

/// A name on the command line that names nothing.
#[derive(Clone, Copy, Debug, PartialEq, Eq, Structural)]
pub enum SettingsError {
    InvalidAlgorithm,
    InvalidNeighbor,
    /// A cell must take at least one iteration to die.
    InvalidState,
}

/// Every name given on the command line names an algorithm or a neighbour
/// rule.
pub open spec fn names_valid(algorithm: Option<&str>, neighbor: Option<&str>) -> bool {
    &&& (algorithm matches Some(a) ==> algorithm_named(lowercase_of(a@)) is Some)
    &&& (neighbor matches Some(n) ==> neighbor_rule_named(lowercase_of(n@)) is Some)
}

/// With valid names, the command line refuses a state of 0 and no other: any
/// state from 1 to 255, or none at all, is accepted.
pub proof fn lemma_only_state_zero_is_refused(
    algorithm: Option<&str>,
    neighbor: Option<&str>,
    state: Option<u8>,
)
    requires
        names_valid(algorithm, neighbor),
    ensures
        settings_error(algorithm, neighbor, state) is None <==> (state is None || state->0 >= 1),
        state == Some(0u8) ==> settings_error(algorithm, neighbor, state) == Some(
            SettingsError::InvalidState,
        ),
{
}

/// Which option of the command line is refused first, if any: the algorithm's
/// name, then the neighbour rule's name, then a state of 0.
pub open spec fn settings_error(algorithm: Option<&str>, neighbor: Option<&str>, state: Option<u8>) -> Option<
    SettingsError,
> {
    if algorithm matches Some(a) && algorithm_named(lowercase_of(a@)) is None {
        Some(SettingsError::InvalidAlgorithm)
    } else if neighbor matches Some(n) && neighbor_rule_named(lowercase_of(n@)) is None {
        Some(SettingsError::InvalidNeighbor)
    } else if state == Some(0u8) {
        Some(SettingsError::InvalidState)
    } else {
        None
    }
}

/// The settings that the command line chooses, `None` standing for an option
/// that was not given: the convolution algorithm, the Moore neighbourhood, one
/// living state, 10 iterations and 500 ms per iteration by default, with
/// Conway's survival and birth tables. A name of an algorithm is checked before
/// the name of a neighbour rule, and both before the state, which must not be 0.
pub fn resolve_settings(
    algorithm: Option<&str>,
    neighbor: Option<&str>,
    state: Option<u8>,
    iterations: Option<usize>,
    timeiter: Option<u32>,
) -> (r: Result<Settings, SettingsError>)
    ensures
        r is Err <==> settings_error(algorithm, neighbor, state) is Some,
        r matches Err(e) ==> settings_error(algorithm, neighbor, state) == Some(e),
        r is Ok <==> (names_valid(algorithm, neighbor) && state != Some(0u8)),
        r == Err::<Settings, SettingsError>(SettingsError::InvalidState) <==> (names_valid(
            algorithm,
            neighbor,
        ) && state == Some(0u8)),
        r matches Ok(s) ==> {
            &&& s.algorithm == (match algorithm {
                Some(a) => algorithm_named(lowercase_of(a@))->0,
                None => Algorithm::Conv,
            })
            &&& s.rule.spec_neighbor() == (match neighbor {
                Some(n) => neighbor_rule_named(lowercase_of(n@))->0,
                None => NeighborRule::Moore,
            })
            &&& s.rule.spec_survival() == conway_survival()
            &&& s.rule.spec_birth() == conway_birth()
            &&& s.rule.spec_state() == (match state {
                Some(v) => v,
                None => 1u8,
            })
            &&& s.iterations == (match iterations {
                Some(i) => i,
                None => 10usize,
            })
            &&& s.time_per_iteration_ms == (match timeiter {
                Some(t) => t as u64,
                None => 500u64,
            })
        },
{
    let algorithm = match algorithm {
        Some(name) => match Algorithm::parse(name) {
            Ok(alg) => alg,
            Err(_) => {
                return Err(SettingsError::InvalidAlgorithm);
            },
        },
        None => Algorithm::Conv,
    };
    let neighbor_algorithm = match neighbor {
        Some(name) => match NeighborRule::parse(name) {
            Ok(rule) => rule,
            Err(_) => {
                return Err(SettingsError::InvalidNeighbor);
            },
        },
        None => NeighborRule::Moore,
    };
    let state = match state {
        Some(v) => {
            if v == 0 {
                return Err(SettingsError::InvalidState);
            }
            v
        },
        None => 1,
    };
    let rule = Rule::new(
        [false, false, true, true, false, false, false, false, false],
        [false, false, false, true, false, false, false, false, false],
        state,
        neighbor_algorithm,
    );
    assert(rule.spec_survival() =~= conway_survival());
    assert(rule.spec_birth() =~= conway_birth());
    let iterations = match iterations {
        Some(i) => i,
        None => 10,
    };
    let time_per_iteration_ms: u64 = match timeiter {
        Some(t) => t as u64,
        None => 500,
    };
    Ok(Settings { algorithm, rule, iterations, time_per_iteration_ms })
}

/// The size of the field of a GIF: 10 by 10 unless given.
pub fn gif_field_size(numx: Option<u32>, numy: Option<u32>) -> (size: (u32, u32))
    ensures
        size.0 == (match numx {
            Some(v) => v,
            None => 10u32,
        }),
        size.1 == (match numy {
            Some(v) => v,
            None => 10u32,
        }),
{
    let x = match numx {
        Some(v) => v,
        None => 10,
    };
    let y = match numy {
        Some(v) => v,
        None => 10,
    };
    (x, y)
}

/// The table of a rule that holds `true` for the given numbers of neighbours.
pub fn table_from_counts(counts: &Vec<usize>) -> (table: [bool; 9])
    requires
        forall|i: int| 0 <= i < counts@.len() ==> #[trigger] counts@[i] <= 8,
    ensures
        forall|n: int| 0 <= n < 9 ==> #[trigger] table@[n] == counts@.contains(n as usize),
{
    let mut table = [false, false, false, false, false, false, false, false, false];
    let mut i: usize = 0;
    while i < counts.len()
        invariant
            i <= counts@.len(),
            forall|k: int| 0 <= k < counts@.len() ==> #[trigger] counts@[k] <= 8,
            table@.len() == 9,
            forall|n: int| 0 <= n < 9 ==> #[trigger] table@[n] == counts@.subrange(0, i as int).contains(
                n as usize,
            ),
        decreases counts@.len() - i,
    {
        let c = counts[i];
        table[c] = true;
        proof {
            assert forall|n: int| 0 <= n < 9 implies #[trigger] table@[n] == counts@.subrange(
                0,
                i + 1,
            ).contains(n as usize) by {
                let before = counts@.subrange(0, i as int);
                let after = counts@.subrange(0, i + 1);
                assert(after =~= before.push(c));
                if before.contains(n as usize) {
                    let k = choose|k: int| 0 <= k < before.len() && before[k] == n as usize;
                    assert(after[k] == n as usize);
                }
                if n == c {
                    assert(after[i as int] == c);
                }
            }
        }
        i = i + 1;
    }
    assert(counts@.subrange(0, counts@.len() as int) =~= counts@);
    table
}

/// An answer of zero is refused: the message to show, or `None` when the number
/// of iterations is accepted.
pub fn check_iterations(i: usize) -> (message: Option<&'static str>)
    ensures
        message is None <==> i > 0,
        message matches Some(m) ==> m@ == "Iteration number has to be greater than 0"@,
{
    if i == 0 {
        return Some("Iteration number has to be greater than 0");
    }
    None
}

/// An answer of zero columns or rows is refused: the message to show, or `None`
/// when the size is accepted.
pub fn check_dimension(i: u32) -> (message: Option<&'static str>)
    ensures
        message is None <==> i > 0,
        message matches Some(m) ==> m@ == "Has to be greater than 0"@,
{
    if i == 0 {
        return Some("Has to be greater than 0");
    }
    None
}

/// A cell must take at least one iteration to die: the message to show, or
/// `None` when the number is accepted.
pub fn check_state(i: u8) -> (message: Option<&'static str>)
    ensures
        message is None <==> i > 0,
        message matches Some(m) ==> m@ == "Has to be greater than 0"@,
{
    if i == 0 {
        return Some("Has to be greater than 0");
    }
    None
}

/// A file name is accepted without an extension or with the extension `gif`;
/// otherwise the message to show is returned.
pub fn check_file_name(text: &str) -> (message: Option<&'static str>)
    ensures
        message is None <==> (path_extension_of(text@) is None || path_extension_of(text@)
            == Some("gif"@)),
        message matches Some(m) ==> m@ == "Field must be saved as a \".gif\" file"@,
{
    match path_extension(text) {
        Some(extension) => {
            if str_equal(extension.as_str(), "gif") {
                return None;
            }
            Some("Field must be saved as a \".gif\" file")
        },
        None => None,
    }
}

/// Formats the path for `inquire`
pub fn format_path(text: &str) -> (formatted: String)
    ensures
        formatted@ == path_with_extension_of(text@, "gif"@),
{
    proof {
        reveal_strlit("gif");
    }
    path_set_extension(text, "gif")
}

/// The name under which the GIF is saved: a name without an extension gets
/// `.gif`, a name with the extension `gif` is kept, and any other extension is
/// refused (`None`).
pub open spec fn gif_output_of(path: Seq<char>) -> Option<Seq<char>> {
    match path_extension_of(path) {
        None => Some(path_with_extension_of(path, "gif"@)),
        Some(e) => if e == "gif"@ {
            Some(path)
        } else {
            None
        },
    }
}

/// The name under which the GIF is saved.
pub fn gif_output_path(path: &str) -> (out: Option<String>)
    ensures
        out is Some <==> gif_output_of(path@) is Some,
        out matches Some(p) ==> p@ == gif_output_of(path@)->0,
{
    match path_extension(path) {
        Some(extension) => {
            if !str_equal(extension.as_str(), "gif") {
                return None;
            }
            Some(path.to_owned())
        },
        None => {
            proof {
                reveal_strlit("gif");
            }
            Some(path_set_extension(path, "gif"))
        },
    }
}

/// A file name that the dialogue accepts is a name the GIF can be saved under,
/// and a name without an extension is saved under the very name that the
/// dialogue shows for it.
pub proof fn lemma_accepted_name_is_saved(text: Seq<char>)
    ensures
        (path_extension_of(text) is None || path_extension_of(text) == Some("gif"@)) <==> gif_output_of(
            text,
        ) is Some,
        path_extension_of(text) is None ==> gif_output_of(text) == Some(
            path_with_extension_of(text, "gif"@),
        ),
{
}

} // verus!
