//! Reading of the champion log (`fittest.log`) written by the C++ trainer.
//!
//! The log starts with a header line (the network layout, such as `4 8 16 4 1`).
//! After it come generation markers (a single unsigned number on a line) and
//! individuals (`N w1 ... wN`: a count, then that many weights). The champion is
//! the last individual whose line is well formed and has exactly as many
//! weights as a network of this crate; malformed lines are passed over.
use crate::config::{
    Activation, Engine, FitnessFunc, MutationStrategy, ReproductionStrategy, SelectionStrategy,
    TrainingSettings,
};
use crate::constants::TOTAL_WEIGHTS;
use crate::text::{
    all_digits, chars_of, digit_value, digits_value, is_digit, float_literal, is_float_literal, lines, parse_u32, parse_unsigned, parse_usize,
    split_lines, split_words, views, words,
};
use vstd::prelude::*;
use vstd::std_specs::convert::FromSpecImpl;
use vstd::string::StringExecFns;

verus! {

#[verifier::external_type_specification]
#[verifier::external_body]
pub struct ExIoError(std::io::Error);

/// Ways in which reading a C++ champion log fails.
#[derive(Debug)]
pub enum CppCompatError {
    /// No file at the given path.
    FileNotFound(String),
    /// The champion has the wrong number of weights.
    WeightMismatch { expected: usize, found: usize },
    /// The log holds no well-formed champion.
    NoValidChampion,
    /// Reading the file failed.
    IoError(std::io::Error),
}

impl From<std::io::Error> for CppCompatError {
    fn from(error: std::io::Error) -> (r: CppCompatError) {
        CppCompatError::IoError(error)
    }
}

impl FromSpecImpl<std::io::Error> for CppCompatError {
    open spec fn obeys_from_spec() -> bool {
        true
    }

    open spec fn from_spec(v: std::io::Error) -> CppCompatError {
        CppCompatError::IoError(v)
    }
}

/// The description of an I/O error that its `Display` implementation writes.
///
/// Trusted: calls `ToString::to_string` on a `std::io::Error`; nothing is
/// claimed of the text, which comes from the operating system.
#[verifier::external_body]
fn io_error_text(e: &std::io::Error) -> String {
    e.to_string()
}

impl CppCompatError {
    /// The message shown to the user.
    pub open spec fn message(&self, io_text: Seq<char>) -> Seq<char> {
        match self {
            CppCompatError::FileNotFound(path) => "C++ log file not found at: "@ + path@,
            CppCompatError::WeightMismatch { expected, found } => "Weight count mismatch. Expected "@
                + decimal_chars(*expected as nat) + ", found "@ + decimal_chars(*found as nat),
            CppCompatError::NoValidChampion => "No valid champion found in the C++ log file"@,
            CppCompatError::IoError(_) => "I/O error reading C++ log file: "@ + io_text,
        }
    }

    /// The message shown to the user; for an I/O error it ends with the
    /// error's own description.
    pub fn to_display_string(&self) -> (s: String)
        ensures
            self is IoError ==> exists|io_text: Seq<char>| s@ == self.message(io_text),
            !(self is IoError) ==> s@ == self.message(Seq::empty()),
    {
        match self {
            CppCompatError::FileNotFound(path) => String::from_str("C++ log file not found at: ").concat(
                path.as_str(),
            ),
            CppCompatError::WeightMismatch { expected, found } => {
                let e = decimal_string(*expected as u64);
                let f = decimal_string(*found as u64);
                String::from_str("Weight count mismatch. Expected ").concat(e.as_str()).concat(
                    ", found ",
                ).concat(f.as_str())
            },
            CppCompatError::NoValidChampion => String::from_str(
                "No valid champion found in the C++ log file",
            ),
            CppCompatError::IoError(e) => {
                let t = io_error_text(e);
                let s = String::from_str("I/O error reading C++ log file: ").concat(t.as_str());
                assert(s@ == self.message(t@));
                s
            },
        }
    }
}

/// Facts about a C++ log beyond its champion (none are kept).
#[derive(Debug, Clone)]
pub struct CppLogMetadata {}

/// Layout of a C++ log, told by its header line.
#[derive(Debug, Clone, Copy, PartialEq, Eq, Structural)]
pub enum CppLogFormat {
    /// A header of exactly five unsigned numbers.
    Original,
    /// A header of more than five words.
    Extended,
    /// Any other header, or none.
    Unknown,
}

// ---------------------------------------------------------------------------
// Decimal rendering
// ---------------------------------------------------------------------------

pub open spec fn digit_char(d: nat) -> char {
    seq!['0', '1', '2', '3', '4', '5', '6', '7', '8', '9'][d as int]
}

/// The decimal digits of `n`, without leading zeros.
pub open spec fn decimal_chars(n: nat) -> Seq<char>
    decreases n,
{
    if n < 10 {
        seq![digit_char(n)]
    } else {
        decimal_chars(n / 10).push(digit_char(n % 10))
    }
}

proof fn lemma_digit_char(d: nat)
    requires
        d < 10,
    ensures
        is_digit(digit_char(d)),
        digit_value(digit_char(d)) == d,
{
    let t = seq!['0', '1', '2', '3', '4', '5', '6', '7', '8', '9'];
    assert(t[d as int] as int == '0' as int + d);
}

/// Reading back a rendered number gives the number: the decimal rendering
/// of `n` is a string of digits whose value is `n`, and so it parses as `n`
/// wherever `n` is within range.
pub proof fn lemma_decimal_round_trip(n: nat)
    ensures
        all_digits(decimal_chars(n)),
        digits_value(decimal_chars(n)) == n,
        decimal_chars(n).len() > 0,
        forall|max: nat| n <= max ==> parse_unsigned(decimal_chars(n), max) == Some(n),
    decreases n,
{
    if n < 10 {
        lemma_digit_char(n);
        let s = decimal_chars(n);
        assert(s.drop_last() =~= Seq::<char>::empty());
        assert(s.last() == digit_char(n));
        assert(digits_value(s) == digits_value(s.drop_last()) * 10 + digit_value(s.last()));
        assert(is_digit(s[0]));
    } else {
        lemma_decimal_round_trip(n / 10);
        lemma_digit_char(n % 10);
        let s = decimal_chars(n);
        let p = decimal_chars(n / 10);
        assert(s.drop_last() =~= p);
        assert forall|i: int| 0 <= i < s.len() implies is_digit(#[trigger] s[i]) by {
            if i < p.len() {
                assert(s[i] == p[i]);
            }
        }
        assert(s.last() == digit_char(n % 10));
        assert(digits_value(s) == digits_value(s.drop_last()) * 10 + digit_value(s.last()));
        assert(n == (n / 10) * 10 + n % 10);
    }
    let s = decimal_chars(n);
    assert(s[0] != '+') by {
        assert(is_digit(s[0]));
    }
    assert forall|max: nat| n <= max implies parse_unsigned(decimal_chars(n), max) == Some(n) by {
        assert(crate::text::unsigned_digits(s) == Some(s));
    }
}

/// Builds a string from characters.
///
/// Trusted: calls std's `String::from_iter` over the characters; the string it
/// builds holds exactly those characters in order.
#[verifier::external_body]
fn string_from_chars(cs: &Vec<char>) -> (s: String)
    ensures
        s@ == cs@,
{
    String::from_iter(cs.iter())
}

fn push_decimal(n: u64, out: &mut Vec<char>)
    ensures
        final(out)@ == old(out)@ + decimal_chars(n as nat),
    decreases n,
{
    let table = ['0', '1', '2', '3', '4', '5', '6', '7', '8', '9'];
    assert(table@ =~= seq!['0', '1', '2', '3', '4', '5', '6', '7', '8', '9']);
    if n >= 10 {
        push_decimal(n / 10, out);
    }
    let ghost mid = out@;
    out.push(table[(n % 10) as usize]);
    proof {
        if n >= 10 {
            assert(out@ =~= old(out)@ + decimal_chars(n as nat));
        } else {
            assert(out@ =~= old(out)@ + decimal_chars(n as nat));
        }
    }
}

/// The decimal representation of `n`.
pub fn decimal_string(n: u64) -> (s: String)
    ensures
        s@ == decimal_chars(n as nat),
{
    let mut v: Vec<char> = Vec::new();
    push_decimal(n, &mut v);
    assert(v@ =~= decimal_chars(n as nat));
    string_from_chars(&v)
}

// ---------------------------------------------------------------------------
// Specification of the log
// ---------------------------------------------------------------------------

/// A line holding a single unsigned 32-bit number: a generation marker.
pub open spec fn is_generation_marker(line: Seq<char>) -> bool {
    let ws = words(line);
    ws.len() == 1 && parse_unsigned(ws[0], u32::MAX as nat) is Some
}

/// A line holding a count followed by exactly that many floating-point
/// numbers, the count being the genome length of this crate's networks.
pub open spec fn is_champion_line(line: Seq<char>) -> bool {
    let ws = words(line);
    &&& ws.len() > 1
    &&& parse_unsigned(ws[0], usize::MAX as nat) == Some((ws.len() - 1) as nat)
    &&& ws.len() - 1 == TOTAL_WEIGHTS
    &&& forall|i: int| 1 <= i < ws.len() ==> is_float_literal(#[trigger] ws[i])
}

/// Number of generation markers among `ls`.
pub open spec fn count_generation_markers(ls: Seq<Seq<char>>) -> nat
    decreases ls.len(),
{
    if ls.len() == 0 {
        0
    } else {
        count_generation_markers(ls.drop_last()) + if is_generation_marker(ls.last()) {
            1nat
        } else {
            0nat
        }
    }
}

/// Index of the last champion line among `ls`.
pub open spec fn last_champion(ls: Seq<Seq<char>>) -> Option<int>
    decreases ls.len(),
{
    if ls.len() == 0 {
        None
    } else if is_champion_line(ls.last()) {
        Some(ls.len() - 1)
    } else {
        last_champion(ls.drop_last())
    }
}

/// The lines of a log after its header.
pub open spec fn log_body(content: Seq<char>) -> Seq<Seq<char>> {
    if lines(content).len() == 0 {
        Seq::empty()
    } else {
        lines(content).drop_first()
    }
}

/// The header line of a log, if it has one.
pub open spec fn log_header(content: Seq<char>) -> Option<Seq<char>> {
    if lines(content).len() > 0 {
        Some(lines(content)[0])
    } else {
        None
    }
}

/// The weights (as written) of the champion of a log.
pub open spec fn champion_weights(content: Seq<char>) -> Seq<Seq<char>> {
    words(log_body(content)[last_champion(log_body(content))->0]).drop_first()
}

/// The format that a header line tells.
pub open spec fn log_format_of(header: Option<Seq<char>>) -> CppLogFormat {
    match header {
        Some(h) => {
            let ws = words(h);
            if ws.len() == 5 && forall|i: int|
                0 <= i < 5 ==> parse_unsigned(#[trigger] ws[i], u32::MAX as nat) is Some {
                CppLogFormat::Original
            } else if ws.len() > 5 {
                CppLogFormat::Extended
            } else {
                CppLogFormat::Unknown
            }
        },
        None => CppLogFormat::Unknown,
    }
}

/// The name given to a model loaded from a C++ log.
pub open spec fn cpp_model_name(generation_count: nat) -> Seq<char> {
    if generation_count > 0 {
        "C++ Champion ("@ + decimal_chars(generation_count) + " generations)"@
    } else {
        "C++ Champion (unknown generations)"@
    }
}

/// The settings that match how the C++ trainer ran.
pub open spec fn is_cpp_compatible(s: TrainingSettings, generation_count: nat) -> bool {
    &&& s.name matches Some(n) && n@ == cpp_model_name(generation_count)
    &&& s.engine == Engine::Cpu
    &&& s.generations == generation_count
    &&& s.population_size == 128
    &&& s.elite_count == 2
    &&& s.reproduction_strategy == ReproductionStrategy::CppEquivalent
    &&& s.mutation_strategy == MutationStrategy::CppEquivalent
    &&& s.fitness_func == FitnessFunc::CppEquivalent
    &&& s.activation == Activation::ClampedLinear
    &&& s.selection_strategy == SelectionStrategy::Tournament
    &&& s.tournament_size == 3
    &&& !s.adaptive_mutation
    &&& s.early_stopping_patience is None
    &&& !s.track_diversity
    &&& !s.normalize_fitness
    &&& !s.random_ball_direction
    &&& !s.concurrent
    &&& s.random_seed is None
}

/// A champion written at the end of a log is the champion read back from it:
/// appending a well-formed champion line to a log that has a header and ends
/// with a line feed makes that line's weights the champion's, and leaves the
/// generation count as it was.
pub proof fn lemma_appended_champion_is_read(c: Seq<char>, l: Seq<char>)
    requires
        lines(c).len() >= 1,
        c.last() == '\n',
        forall|k: int| 0 <= k < l.len() ==> #[trigger] l[k] != '\n',
        is_champion_line(l),
    ensures
        last_champion(log_body(c + l)) == Some(log_body(c).len() as int),
        champion_weights(c + l) == words(l).drop_first(),
        count_generation_markers(log_body(c + l)) == count_generation_markers(log_body(c)),
{
    assert(l.len() > 0) by {
        if l.len() == 0 {
            assert(words(l) =~= Seq::<Seq<char>>::empty());
        }
    }
    crate::text::lemma_lines_append(c, l);
    let body = log_body(c + l);
    assert(body =~= log_body(c).push(l));
    assert(body.drop_last() =~= log_body(c));
    assert(body.last() == l);
    assert(!is_generation_marker(l));
}

/// The C++ trainer ends every line with a line feed: a champion line written
/// with its line feed at the end of a log is the champion read back from it,
/// and the generation count stays as it was.
pub proof fn lemma_written_champion_is_read(c: Seq<char>, l: Seq<char>)
    requires
        lines(c).len() >= 1,
        c.last() == '\n',
        forall|k: int| 0 <= k < l.len() ==> #[trigger] l[k] != '\n',
        is_champion_line(l),
    ensures
        last_champion(log_body(c + l.push('\n'))) == Some(log_body(c).len() as int),
        champion_weights(c + l.push('\n')) == words(l).drop_first(),
        count_generation_markers(log_body(c + l.push('\n'))) == count_generation_markers(
            log_body(c),
        ),
{
    assert(l.len() > 0) by {
        if l.len() == 0 {
            assert(words(l) =~= Seq::<Seq<char>>::empty());
        }
    }
    crate::text::lemma_lines_final_line_feed(c, l);
    lemma_appended_champion_is_read(c, l);
    assert(log_body(c + l.push('\n')) == log_body(c + l));
}

/// A line that is not a well-formed champion, appended to a log that has a
/// header and ends with a line feed, leaves the champion as it was.
pub proof fn lemma_appended_other_line_keeps_champion(c: Seq<char>, l: Seq<char>)
    requires
        lines(c).len() >= 1,
        c.last() == '\n',
        l.len() > 0,
        forall|k: int| 0 <= k < l.len() ==> #[trigger] l[k] != '\n',
        !is_champion_line(l),
    ensures
        last_champion(log_body(c + l)) == last_champion(log_body(c)),
{
    crate::text::lemma_lines_append(c, l);
    let body = log_body(c + l);
    assert(body =~= log_body(c).push(l));
    assert(body.drop_last() =~= log_body(c));
    assert(body.last() == l);
}

/// Two settings that agree in every field, names compared by their text.
pub open spec fn same_settings(a: TrainingSettings, b: TrainingSettings) -> bool {
    &&& opt_view(a.name) == opt_view(b.name)
    &&& a.engine == b.engine
    &&& a.activation == b.activation
    &&& a.generations == b.generations
    &&& a.concurrent == b.concurrent
    &&& a.population_size == b.population_size
    &&& a.elite_count == b.elite_count
    &&& a.selection_strategy == b.selection_strategy
    &&& a.tournament_size == b.tournament_size
    &&& a.reproduction_strategy == b.reproduction_strategy
    &&& a.mutation_strategy == b.mutation_strategy
    &&& a.adaptive_mutation == b.adaptive_mutation
    &&& a.early_stopping_patience == b.early_stopping_patience
    &&& a.track_diversity == b.track_diversity
    &&& a.fitness_func == b.fitness_func
    &&& a.normalize_fitness == b.normalize_fitness
    &&& a.random_ball_direction == b.random_ball_direction
    &&& a.random_seed == b.random_seed
}

/// The text of an optional string.
pub open spec fn opt_view(o: Option<String>) -> Option<Seq<char>> {
    match o {
        Some(s) => Some(s@),
        None => None,
    }
}

// ---------------------------------------------------------------------------
// Reading
// ---------------------------------------------------------------------------

/// Tells the layout of a C++ log from its header line (see [`log_format_of`]).
pub fn detect_log_format(header: &Option<String>) -> (f: CppLogFormat)
    ensures
        f == log_format_of(opt_view(*header)),
{
    match header {
        Some(header_line) => {
            let cs = chars_of(header_line.as_str());
            let parts = split_words(&cs);
            if parts.len() == 5 {
                let mut k: usize = 0;
                while k < 5
                    invariant
                        k <= 5,
                        parts.len() == 5,
                        opt_view(*header) == Some(header_line@),
                        views(parts@) == words(header_line@),
                        forall|i: int|
                            0 <= i < k ==> parse_unsigned(#[trigger] views(parts@)[i], u32::MAX as nat) is Some,
                    decreases 5 - k,
                {
                    if parse_u32(&parts[k]).is_none() {
                        assert(views(parts@)[k as int] == parts@[k as int]@);
                        assert(!(parse_unsigned(words(header_line@)[k as int], u32::MAX as nat) is Some));
                        return CppLogFormat::Unknown;
                    }
                    assert(views(parts@)[k as int] == parts@[k as int]@);
                    k = k + 1;
                }
                CppLogFormat::Original
            } else if parts.len() > 5 {
                CppLogFormat::Extended
            } else {
                CppLogFormat::Unknown
            }
        },
        None => CppLogFormat::Unknown,
    }
}

/// Settings that match how the C++ trainer ran, for a model trained over
/// `generation_count` generations.
pub fn create_cpp_compatible_config(generation_count: u32, _metadata: &CppLogMetadata) -> (s:
    TrainingSettings)
    ensures
        is_cpp_compatible(s, generation_count as nat),
{
    let model_name = if generation_count > 0 {
        let digits = decimal_string(generation_count as u64);
        String::from_str("C++ Champion (").concat(digits.as_str()).concat(" generations)")
    } else {
        String::from_str("C++ Champion (unknown generations)")
    };
    TrainingSettings {
        name: Some(model_name),
        engine: Engine::Cpu,
        generations: generation_count,
        population_size: 128,
        elite_count: 2,
        reproduction_strategy: ReproductionStrategy::CppEquivalent,
        mutation_strategy: MutationStrategy::CppEquivalent,
        fitness_func: FitnessFunc::CppEquivalent,
        activation: Activation::ClampedLinear,
        selection_strategy: SelectionStrategy::Tournament,
        tournament_size: 3,
        adaptive_mutation: false,
        early_stopping_patience: None,
        track_diversity: false,
        normalize_fitness: false,
        random_ball_direction: false,
        concurrent: false,
        random_seed: None,
    }
}

/// The texts of a sequence of strings.
pub open spec fn string_views(w: Seq<String>) -> Seq<Seq<char>> {
    w.map_values(|s: String| s@)
}

proof fn lemma_count_markers_prefix(ls: Seq<Seq<char>>, b: int)
    requires
        0 <= b <= ls.len(),
    ensures
        count_generation_markers(ls.take(b)) <= count_generation_markers(ls),
    decreases ls.len() - b,
{
    if b < ls.len() {
        assert(ls.take(b + 1).drop_last() =~= ls.take(b));
        lemma_count_markers_prefix(ls, b + 1);
    } else {
        assert(ls.take(b) =~= ls);
    }
}

/// A generation marker has at least one character and lines are separated by
/// line feeds, so a log never holds more markers than characters.
pub proof fn lemma_markers_at_most_chars(content: Seq<char>)
    ensures
        count_generation_markers(log_body(content)) <= content.len(),
{
    lemma_count_markers_at_most_lines(log_body(content));
    lemma_lines_at_most_chars(content);
}

proof fn lemma_count_markers_at_most_lines(ls: Seq<Seq<char>>)
    ensures
        count_generation_markers(ls) <= ls.len(),
    decreases ls.len(),
{
    if ls.len() > 0 {
        lemma_count_markers_at_most_lines(ls.drop_last());
    }
}

proof fn lemma_lines_at_most_chars(s: Seq<char>)
    ensures
        lines(s).len() <= s.len(),
    decreases s.len(),
{
    if s.len() > 0 {
        crate::text::lemma_line_len_bound(s);
        let n = crate::text::line_len(s);
        if n < s.len() {
            lemma_lines_at_most_chars(s.skip(n + 1 as int));
        }
    }
}

fn all_float_literals(ws: &Vec<Vec<char>>, from: usize) -> (b: bool)
    requires
        from <= ws.len(),
    ensures
        b == forall|i: int| from <= i < ws.len() ==> is_float_literal(#[trigger] views(ws@)[i]),
{
    let mut k: usize = from;
    while k < ws.len()
        invariant
            from <= k <= ws.len(),
            forall|i: int| from <= i < k ==> is_float_literal(#[trigger] views(ws@)[i]),
        decreases ws.len() - k,
    {
        assert(views(ws@)[k as int] == ws@[k as int]@);
        if !float_literal(&ws[k]) {
            return false;
        }
        k = k + 1;
    }
    true
}

/// Reads the champion of a C++ log: the weights (as written) of the last
/// well-formed individual with the genome length of this crate's networks,
/// and settings that match the C++ trainer, naming the number of generation
/// markers in the log. A log without such an individual is refused with
/// `NoValidChampion`. The header line takes no part.
pub fn load_cpp_champion_enhanced(content: &str) -> (r: Result<
    (Vec<String>, TrainingSettings, CppLogMetadata),
    CppCompatError,
>)
    requires
        count_generation_markers(log_body(content@)) <= u32::MAX,
    ensures
        r is Ok <==> last_champion(log_body(content@)) is Some,
        r matches Ok((weights, settings, _)) ==> {
            &&& string_views(weights@) == champion_weights(content@)
            &&& is_cpp_compatible(settings, count_generation_markers(log_body(content@)))
        },
        r matches Err(e) ==> e is NoValidChampion,
{
    let cs = chars_of(content);
    let ls = split_lines(&cs);
    let ghost body = log_body(content@);
    if ls.len() > 0 {
        assert(body =~= views(ls@).drop_first());
    }
    let mut generation_count: u32 = 0;
    let mut champion: Option<Vec<Vec<char>>> = None;
    let ghost mut champion_index: Option<int> = None;
    let mut i: usize = 1;
    assert(body.take(0) =~= Seq::<Seq<char>>::empty());
    while i < ls.len()
        invariant
            1 <= i <= ls.len() || (i == 1 && ls.len() == 0),
            ls.len() > 0 ==> body == views(ls@).drop_first(),
            ls.len() == 0 ==> body.len() == 0,
            body == log_body(content@),
            count_generation_markers(body) <= u32::MAX,
            generation_count == count_generation_markers(body.take(i - 1)),
            champion_index == last_champion(body.take(i - 1)),
            champion is Some <==> champion_index is Some,
            champion_index matches Some(j) ==> 0 <= j < body.len() && is_champion_line(body[j]),
            champion matches Some(t) ==> views(t@) == words(body[champion_index->0]),
        decreases ls.len() - i,
    {
        let b: usize = i - 1;
        assert(views(ls@)[i as int] == ls@[i as int]@);
        assert(body[b as int] == ls@[i as int]@);
        let ws = split_words(&ls[i]);
        let ghost line = body[b as int];
        let ghost pre = body.take(b as int);
        assert(body.take(b + 1).drop_last() =~= pre);
        assert(body.take(b + 1).last() == line);
        let mut is_marker = false;
        if ws.len() == 1 {
            assert(views(ws@)[0] == ws@[0]@);
            if parse_u32(&ws[0]).is_some() {
                is_marker = true;
            }
        }
        assert(is_marker == is_generation_marker(line));
        if is_marker {
            proof {
                lemma_count_markers_prefix(body, b + 1);
            }
            generation_count = generation_count + 1;
        } else if ws.len() > 1 {
            assert(views(ws@)[0] == ws@[0]@);
            match parse_usize(&ws[0]) {
                Some(count) => {
                    let floats = all_float_literals(&ws, 1);
                    if floats && count == ws.len() - 1 && count == TOTAL_WEIGHTS {
                        assert(is_champion_line(line));
                        champion = Some(ws);
                        proof {
                            champion_index = Some(b as int);
                        }
                    } else {
                        assert(!is_champion_line(line));
                    }
                },
                None => {
                    assert(!is_champion_line(line));
                },
            }
        }
        i = i + 1;
    }
    if ls.len() > 0 {
        assert(body.take(ls.len() - 1) =~= body);
    }
    match champion {
        None => Err(CppCompatError::NoValidChampion),
        Some(ws) => {
            assert(ws@.len() == views(ws@).len());
            let mut weights: Vec<String> = Vec::new();
            let mut k: usize = 1;
            while k < ws.len()
                invariant
                    1 <= k <= ws.len(),
                    string_views(weights@) == views(ws@).subrange(1, k as int),
                decreases ws.len() - k,
            {
                let w = string_from_chars(&ws[k]);
                assert(views(ws@)[k as int] == ws@[k as int]@);
                let ghost before = string_views(weights@);
                weights.push(w);
                assert(string_views(weights@) =~= before.push(ws@[k as int]@));
                assert(views(ws@).subrange(1, k + 1) =~= views(ws@).subrange(1, k as int).push(
                    views(ws@)[k as int],
                ));
                k = k + 1;
            }
            assert(views(ws@).subrange(1, ws.len() as int) =~= views(ws@).drop_first());
            if weights.len() != TOTAL_WEIGHTS {
                return Err(
                    CppCompatError::WeightMismatch { expected: TOTAL_WEIGHTS, found: weights.len() },
                );
            }
            let metadata = CppLogMetadata {  };
            let settings = create_cpp_compatible_config(generation_count, &metadata);
            Ok((weights, settings, metadata))
        },
    }
}

/// Reads the champion of a C++ log as [`load_cpp_champion_enhanced`] does,
/// without the metadata.
pub fn load_cpp_champion(content: &str) -> (r: Result<(Vec<String>, TrainingSettings), CppCompatError>)
    requires
        count_generation_markers(log_body(content@)) <= u32::MAX,
    ensures
        r is Ok <==> last_champion(log_body(content@)) is Some,
        r matches Ok((weights, settings)) ==> {
            &&& string_views(weights@) == champion_weights(content@)
            &&& is_cpp_compatible(settings, count_generation_markers(log_body(content@)))
        },
        r matches Err(e) ==> e is NoValidChampion,
{
    match load_cpp_champion_enhanced(content) {
        Ok((weights, settings, _metadata)) => Ok((weights, settings)),
        Err(e) => Err(e),
    }
}

/// The short reader agrees with the full one: on the same log both succeed
/// or both fail; when they succeed they give the same weights and the same
/// settings, and when they fail, the same error.
pub proof fn lemma_short_reader_agrees(
    content: Seq<char>,
    full: Result<(Vec<String>, TrainingSettings, CppLogMetadata), CppCompatError>,
    short: Result<(Vec<String>, TrainingSettings), CppCompatError>,
)
    requires
        full is Ok <==> last_champion(log_body(content)) is Some,
        full matches Ok((weights, settings, _)) ==> {
            &&& string_views(weights@) == champion_weights(content)
            &&& is_cpp_compatible(settings, count_generation_markers(log_body(content)))
        },
        full matches Err(e) ==> e is NoValidChampion,
        short is Ok <==> last_champion(log_body(content)) is Some,
        short matches Ok((weights, settings)) ==> {
            &&& string_views(weights@) == champion_weights(content)
            &&& is_cpp_compatible(settings, count_generation_markers(log_body(content)))
        },
        short matches Err(e) ==> e is NoValidChampion,
    ensures
        full is Ok <==> short is Ok,
        full matches Ok((w1, s1, _)) ==> (short matches Ok((w2, s2)) && string_views(w1@)
            == string_views(w2@) && same_settings(s1, s2)),
        full matches Err(e1) ==> (short matches Err(e2) && e1 == e2),
{
}

} // verus!
