//! The line-oriented env parser: splits the input into lines, accumulates
//! the comments written above each key, splits each entry at its first `=`,
//! and classifies the value.

use vstd::prelude::*;
use crate::classify::{classify, classify_spec};
use crate::text::{chars_to_string, idx_of, is_ws, ws_char};
use crate::value::{EnvType, ValueModel};

verus! {

/// The lines of `s`, split at every newline character.  Splitting the empty
/// text gives one empty line; a trailing newline produces a final empty line.
pub open spec fn lines_of(s: Seq<char>) -> Seq<Seq<char>>
    decreases s.len(),
{
    if s.len() == 0 {
        seq![s]
    } else if s.last() == '\n' {
        lines_of(s.drop_last()).push(Seq::empty())
    } else {
        let prev = lines_of(s.drop_last());
        prev.update(prev.len() - 1, prev.last().push(s.last()))
    }
}

/// `s` with its leading whitespace removed.
pub open spec fn trim_start(s: Seq<char>) -> Seq<char>
    decreases s.len(),
{
    if s.len() > 0 && ws_char(s[0]) {
        trim_start(s.drop_first())
    } else {
        s
    }
}

/// `s` with its trailing whitespace removed.
pub open spec fn trim_end(s: Seq<char>) -> Seq<char>
    decreases s.len(),
{
    if s.len() > 0 && ws_char(s.last()) {
        trim_end(s.drop_last())
    } else {
        s
    }
}

/// `s` with surrounding whitespace removed.
pub open spec fn trim_spec(s: Seq<char>) -> Seq<char> {
    trim_end(trim_start(s))
}

proof fn lemma_trim_start_skip(s: Seq<char>, a: int)
    requires
        0 <= a <= s.len(),
        forall|k: int| 0 <= k < a ==> ws_char(#[trigger] s[k]),
        a < s.len() ==> !ws_char(s[a]),
    ensures
        trim_start(s) == s.skip(a),
    decreases a,
{
    if a == 0 {
        assert(s.skip(0) =~= s);
    } else {
        lemma_trim_start_skip(s.drop_first(), a - 1);
        assert(s.drop_first().skip(a - 1) =~= s.skip(a));
    }
}

proof fn lemma_trim_end_take(s: Seq<char>, b: int)
    requires
        0 <= b <= s.len(),
        forall|k: int| b <= k < s.len() ==> ws_char(#[trigger] s[k]),
        b > 0 ==> !ws_char(s[b - 1]),
    ensures
        trim_end(s) == s.take(b),
    decreases s.len(),
{
    if b == s.len() {
        assert(s.take(b) =~= s);
        if s.len() > 0 && ws_char(s.last()) {
            assert(false);
        }
    } else {
        assert(ws_char(s.last()));
        lemma_trim_end_take(s.drop_last(), b);
        assert(s.drop_last().take(b) =~= s.take(b));
    }
}

/// Trims surrounding whitespace from a line.
pub fn trim_str(s: &str) -> (r: String)
    ensures
        r@ == trim_spec(s@),
{
    let n = s.unicode_len();
    let mut a: usize = 0;
    while a < n && is_ws(s.get_char(a))
        invariant
            n == s@.len(),
            a <= n,
            forall|k: int| 0 <= k < a ==> ws_char(#[trigger] s@[k]),
        decreases n - a,
    {
        a = a + 1;
    }
    proof {
        lemma_trim_start_skip(s@, a as int);
    }
    if a == n {
        let r = String::new();
        proof {
            assert(s@.skip(a as int) =~= Seq::<char>::empty());
        }
        return r;
    }
    let mut b: usize = n;
    while b > a && is_ws(s.get_char(b - 1))
        invariant
            n == s@.len(),
            a <= b <= n,
            forall|k: int| b <= k < n ==> ws_char(#[trigger] s@[k]),
        decreases b,
    {
        b = b - 1;
    }
    proof {
        let t = s@.skip(a as int);
        assert forall|k: int| b - a <= k < t.len() implies ws_char(#[trigger] t[k]) by {
            assert(t[k] == s@[a + k]);
        }
        if b > a {
            assert(t[b - a - 1] == s@[b - 1]);
        }
        lemma_trim_end_take(t, b - a);
        assert(t.take(b - a) =~= s@.subrange(a as int, b as int));
    }
    let piece = s.substring_char(a, b);
    piece.to_owned()
}

/// A comment line converted to the target syntax: every `#` becomes `//`.
pub open spec fn comment_conv(s: Seq<char>) -> Seq<char>
    decreases s.len(),
{
    if s.len() == 0 {
        s
    } else if s.last() == '#' {
        comment_conv(s.drop_last()) + seq!['/', '/']
    } else {
        comment_conv(s.drop_last()).push(s.last())
    }
}

/// Converts a trimmed comment line to the target comment syntax.
pub fn convert_comment(s: &str) -> (r: String)
    ensures
        r@ == comment_conv(s@),
{
    let n = s.unicode_len();
    let mut out: Vec<char> = Vec::new();
    let mut i: usize = 0;
    while i < n
        invariant
            n == s@.len(),
            i <= n,
            out@ == comment_conv(s@.take(i as int)),
        decreases n - i,
    {
        let c = s.get_char(i);
        proof {
            assert(s@.take(i + 1 as int).drop_last() =~= s@.take(i as int));
        }
        if c == '#' {
            out.push('/');
            out.push('/');
            assert(out@ =~= comment_conv(s@.take(i + 1 as int)));
        } else {
            out.push(c);
        }
        i = i + 1;
    }
    proof {
        assert(s@.take(n as int) =~= s@);
    }
    chars_to_string(&out)
}

/// A line is blank when nothing is left after trimming.
pub open spec fn is_blank_line(l: Seq<char>) -> bool {
    trim_spec(l).len() == 0
}

/// A line is a comment when its first character after trimming is `#`.
pub open spec fn is_comment_line(l: Seq<char>) -> bool {
    trim_spec(l).len() > 0 && trim_spec(l)[0] == '#'
}

/// A line that must carry a `KEY=value` entry.
pub open spec fn is_entry_line(l: Seq<char>) -> bool {
    !is_blank_line(l) && !is_comment_line(l)
}

/// Whether an entry line contains the `=` separator.
pub open spec fn entry_has_sep(l: Seq<char>) -> bool {
    idx_of(trim_spec(l), '=') < trim_spec(l).len()
}

/// The text before the first `=` of the trimmed line.
pub open spec fn entry_key(l: Seq<char>) -> Seq<char> {
    trim_spec(l).take(idx_of(trim_spec(l), '='))
}

/// The text after the first `=` of the trimmed line, preserved as-is.
pub open spec fn entry_val(l: Seq<char>) -> Seq<char> {
    trim_spec(l).skip(idx_of(trim_spec(l), '=') + 1)
}

/// The errors that abort a pass: input that is not UTF-8, and a non-blank,
/// non-comment line without a `=` separator.
#[derive(Debug, PartialEq, Eq, Structural)]
pub enum EnvError {
    Encoding,
    MalformedLine,
}

/// What one env entry hands to a transformer: the comments accumulated above
/// it, its key, and its classified value.
pub struct DeclarationUnit {
    pub comments: Vec<String>,
    pub key: String,
    pub value: EnvType,
}

/// The mathematical content of a [`DeclarationUnit`].
pub ghost struct UnitModel {
    pub comments: Seq<Seq<char>>,
    pub key: Seq<char>,
    pub value: ValueModel,
}

pub open spec fn strs_model(v: Seq<String>) -> Seq<Seq<char>> {
    v.map_values(|x: String| x@)
}

pub open spec fn units_model(v: Seq<DeclarationUnit>) -> Seq<UnitModel> {
    v.map_values(|u: DeclarationUnit| u@)
}

impl View for DeclarationUnit {
    type V = UnitModel;

    open spec fn view(&self) -> UnitModel {
        UnitModel { comments: strs_model(self.comments@), key: self.key@, value: self.value@ }
    }
}

/// One pass over the remaining lines, carrying the comments accumulated so
/// far.  Blank lines produce nothing and, under the clearing policy, drop the
/// accumulated comments; comment lines accumulate; an entry line takes the
/// accumulated comments with it and resets them; an entry line without a
/// separator fails the whole pass.
pub open spec fn parse_lines(
    lines: Seq<Seq<char>>,
    comments: Seq<Seq<char>>,
    clear: bool,
) -> Option<Seq<UnitModel>>
    decreases lines.len(),
{
    if lines.len() == 0 {
        Some(seq![])
    } else {
        let l = lines[0];
        let rest = lines.drop_first();
        if is_blank_line(l) {
            parse_lines(rest, if clear { Seq::empty() } else { comments }, clear)
        } else if is_comment_line(l) {
            parse_lines(rest, comments.push(comment_conv(trim_spec(l))), clear)
        } else if !entry_has_sep(l) {
            None
        } else {
            match parse_lines(rest, Seq::empty(), clear) {
                None => None,
                Some(us) => Some(
                    seq![
                        UnitModel {
                            comments,
                            key: entry_key(l),
                            value: classify_spec(entry_val(l)),
                        },
                    ] + us,
                ),
            }
        }
    }
}

/// The declaration units of a whole input, in file order.
pub open spec fn parse_env(s: Seq<char>, clear: bool) -> Option<Seq<UnitModel>> {
    parse_lines(lines_of(s), Seq::empty(), clear)
}

/// An input on which a pass runs to completion: every non-blank, non-comment
/// line has a separator.
pub open spec fn env_well_formed(s: Seq<char>) -> bool {
    parse_env(s, true) is Some
}

/// Whether a pass succeeds depends only on the lines, never on the comments
/// carried in or on the blank-line policy.
pub proof fn lemma_parse_ok_independent(
    lines: Seq<Seq<char>>,
    c1: Seq<Seq<char>>,
    b1: bool,
    c2: Seq<Seq<char>>,
    b2: bool,
)
    ensures
        (parse_lines(lines, c1, b1) is Some) == (parse_lines(lines, c2, b2) is Some),
    decreases lines.len(),
{
    if lines.len() > 0 {
        let l = lines[0];
        let rest = lines.drop_first();
        if is_blank_line(l) {
            lemma_parse_ok_independent(
                rest,
                if b1 { Seq::empty() } else { c1 },
                b1,
                if b2 { Seq::empty() } else { c2 },
                b2,
            );
        } else if is_comment_line(l) {
            lemma_parse_ok_independent(
                rest,
                c1.push(comment_conv(trim_spec(l))),
                b1,
                c2.push(comment_conv(trim_spec(l))),
                b2,
            );
        } else if entry_has_sep(l) {
            lemma_parse_ok_independent(rest, Seq::empty(), b1, Seq::empty(), b2);
        }
    }
}

/// The number of non-blank, non-comment lines.
pub open spec fn entry_line_count(lines: Seq<Seq<char>>) -> int
    decreases lines.len(),
{
    if lines.len() == 0 {
        0
    } else {
        (if is_entry_line(lines[0]) {
            1int
        } else {
            0int
        }) + entry_line_count(lines.drop_first())
    }
}

proof fn lemma_parse_lines_count(lines: Seq<Seq<char>>, comments: Seq<Seq<char>>, clear: bool)
    ensures
        parse_lines(lines, comments, clear) matches Some(us) ==> us.len() == entry_line_count(
            lines,
        ),
    decreases lines.len(),
{
    if lines.len() > 0 {
        let l = lines[0];
        let rest = lines.drop_first();
        if is_blank_line(l) {
            lemma_parse_lines_count(rest, if clear { Seq::empty() } else { comments }, clear);
        } else if is_comment_line(l) {
            lemma_parse_lines_count(rest, comments.push(comment_conv(trim_spec(l))), clear);
        } else if entry_has_sep(l) {
            lemma_parse_lines_count(rest, Seq::empty(), clear);
        }
    }
}

/// Law: a pass that runs to completion dispatches exactly one unit per
/// non-blank, non-comment line of the input.
pub proof fn lemma_unit_count_matches_entry_lines(s: Seq<char>, clear: bool)
    ensures
        parse_env(s, clear) matches Some(us) ==> us.len() == entry_line_count(lines_of(s)),
{
    lemma_parse_lines_count(lines_of(s), Seq::empty(), clear);
}

/// Relies on `String::from_utf8`: it succeeds exactly on valid UTF-8 input
/// and returns the text those bytes encode.
#[verifier::external_body]
fn decode_env(bytes: &Vec<u8>) -> (r: Option<String>)
    ensures
        r is Some <==> vstd::utf8::valid_utf8(bytes@),
        r matches Some(s) ==> s@ == vstd::utf8::decode_utf8(bytes@),
{
    match String::from_utf8(bytes.clone()) {
        Ok(s) => Some(s),
        Err(_) => None,
    }
}

/// Splits text into its lines.
pub fn split_lines(s: &str) -> (r: Vec<String>)
    ensures
        strs_model(r@) == lines_of(s@),
{
    let n = s.unicode_len();
    let mut lines: Vec<String> = Vec::new();
    let mut cur: Vec<char> = Vec::new();
    let mut i: usize = 0;
    proof {
        assert(s@.take(0) =~= Seq::<char>::empty());
        assert(lines_of(s@.take(0)) == seq![s@.take(0)]);
        assert(strs_model(lines@).push(cur@) =~= lines_of(s@.take(0)));
    }
    while i < n
        invariant
            n == s@.len(),
            i <= n,
            strs_model(lines@).push(cur@) == lines_of(s@.take(i as int)),
        decreases n - i,
    {
        let c = s.get_char(i);
        let ghost prev_model = strs_model(lines@);
        let ghost prev_cur = cur@;
        proof {
            assert(s@.take(i + 1 as int).drop_last() =~= s@.take(i as int));
        }
        if c == '\n' {
            let done = chars_to_string(&cur);
            lines.push(done);
            cur = Vec::new();
            proof {
                assert(strs_model(lines@) =~= prev_model.push(prev_cur));
                assert(strs_model(lines@).push(cur@) =~= lines_of(s@.take(i + 1 as int)));
            }
        } else {
            cur.push(c);
            proof {
                let whole = lines_of(s@.take(i as int));
                assert(whole.last() == prev_cur);
                assert(strs_model(lines@).push(cur@) =~= whole.update(
                    whole.len() - 1,
                    whole.last().push(c),
                ));
            }
        }
        i = i + 1;
    }
    let done = chars_to_string(&cur);
    lines.push(done);
    proof {
        assert(s@.take(n as int) =~= s@);
        assert(strs_model(lines@) =~= lines_of(s@));
    }
    lines
}

/// Joins an accumulator with the outcome of parsing the remaining lines.
pub open spec fn with_prefix(
    acc: Seq<UnitModel>,
    r: Option<Seq<UnitModel>>,
) -> Option<Seq<UnitModel>> {
    match r {
        None => None,
        Some(us) => Some(acc + us),
    }
}

/// Parses a whole input into its declaration units without dispatching them:
/// the sequence is exactly what a transformer would receive, in file order.
pub fn parse_units(env: &Vec<u8>, clear_comments_on_blank: bool) -> (r: Result<
    Vec<DeclarationUnit>,
    EnvError,
>)
    ensures
        match r {
            Ok(units) => vstd::utf8::valid_utf8(env@) && parse_env(
                vstd::utf8::decode_utf8(env@),
                clear_comments_on_blank,
            ) == Some(units_model(units@)),
            Err(EnvError::Encoding) => !vstd::utf8::valid_utf8(env@),
            Err(EnvError::MalformedLine) => vstd::utf8::valid_utf8(env@) && parse_env(
                vstd::utf8::decode_utf8(env@),
                clear_comments_on_blank,
            ) is None,
        },
{
    let text = match decode_env(env) {
        Some(t) => t,
        None => {
            return Err(EnvError::Encoding);
        },
    };
    let lines = split_lines(text.as_str());
    let ghost lm = lines_of(text@);
    let ghost clear = clear_comments_on_blank;
    let mut comments: Vec<String> = Vec::new();
    let mut units: Vec<DeclarationUnit> = Vec::new();
    let n = lines.len();
    let mut li: usize = 0;
    proof {
        assert(lm.skip(0) =~= lm);
        assert(strs_model(comments@) =~= Seq::<Seq<char>>::empty());
        assert(units_model(units@) =~= Seq::<UnitModel>::empty());
        match parse_env(text@, clear) {
            None => {},
            Some(us) => {
                assert(units_model(units@) + us =~= us);
            },
        }
    }
    while li < n
        invariant
            n == lines@.len(),
            li <= n,
            lm == lines_of(text@),
            strs_model(lines@) == lm,
            vstd::utf8::valid_utf8(env@),
            text@ == vstd::utf8::decode_utf8(env@),
            clear == clear_comments_on_blank,
            with_prefix(
                units_model(units@),
                parse_lines(lm.skip(li as int), strs_model(comments@), clear),
            ) == parse_env(text@, clear),
        decreases n - li,
    {
        let trimmed = trim_str(lines[li].as_str());
        let ghost l = lm[li as int];
        let tn = trimmed.unicode_len();
        let ghost rem = lm.skip(li as int);
        proof {
            assert(strs_model(lines@)[li as int] == lines@[li as int]@);
            assert(trimmed@ == trim_spec(l));
            assert(rem[0] == l);
            assert(rem.drop_first() =~= lm.skip(li + 1 as int));
        }
        if tn == 0 {
            if clear_comments_on_blank {
                comments = Vec::new();
            }
            proof {
                assert(is_blank_line(l));
                if clear {
                    assert(strs_model(comments@) =~= Seq::<Seq<char>>::empty());
                }
            }
        } else if trimmed.as_str().get_char(0) == '#' {
            proof {
                assert(is_comment_line(l));
            }
            let ghost prev_comments = strs_model(comments@);
            let conv = convert_comment(trimmed.as_str());
            comments.push(conv);
            proof {
                assert(strs_model(comments@) =~= prev_comments.push(comment_conv(trim_spec(l))));
            }
        } else {
            proof {
                assert(!is_blank_line(l) && !is_comment_line(l));
            }
            let eq = crate::text::find_char(trimmed.as_str(), '=');
            if eq == tn {
                proof {
                    assert(!entry_has_sep(l));
                    assert(parse_lines(rem, strs_model(comments@), clear) is None);
                }
                return Err(EnvError::MalformedLine);
            }
            proof {
                assert(entry_has_sep(l));
            }
            let key = trimmed.substring_char(0, eq).to_owned();
            let val_txt = trimmed.substring_char(eq + 1, tn).to_owned();
            let value = classify(val_txt.as_str());
            let ghost prev_units = units_model(units@);
            let ghost prev_comments = strs_model(comments@);
            let unit = DeclarationUnit { comments, key, value };
            comments = Vec::new();
            proof {
                assert(key@ =~= entry_key(l));
                assert(val_txt@ =~= entry_val(l));
                assert(unit@ == UnitModel {
                    comments: prev_comments,
                    key: entry_key(l),
                    value: classify_spec(entry_val(l)),
                });
            }
            units.push(unit);
            proof {
                assert(units_model(units@) =~= prev_units.push(unit@));
                assert(strs_model(comments@) =~= Seq::<Seq<char>>::empty());
                match parse_lines(lm.skip(li + 1 as int), Seq::empty(), clear) {
                    None => {},
                    Some(us) => {
                        assert(prev_units + (seq![unit@] + us) =~= units_model(units@) + us);
                    },
                }
            }
        }
        li = li + 1;
    }
    proof {
        assert(lm.skip(n as int) =~= Seq::<Seq<char>>::empty());
        assert(parse_lines(lm.skip(n as int), strs_model(comments@), clear) == Some(
            Seq::<UnitModel>::empty(),
        ));
        assert(units_model(units@) + Seq::<UnitModel>::empty() =~= units_model(units@));
    }
    Ok(units)
}

/// Customize rendering by implementing this capability; the dispatcher calls
/// it once per entry, in file order.
pub trait Transform: Sized {
    /// The blank-line policy this transformer answers; most transformers
    /// answer true.
    spec fn clear_policy(&self) -> bool;

    /// If two comment blocks are separated by a blank line, the earlier block
    /// may belong to nothing; when this returns true, comments accumulated
    /// before a blank line are dropped.
    fn remove_comments_if_blank_line_occurs(&self) -> (r: bool)
        ensures
            r == self.clear_policy(),
    ;

    /// Writes one declaration unit; side effects are this handler's business.
    fn write(&mut self, comments: Vec<String>, key: &str, inferred_type: EnvType);
}

/// Raw env text paired with the transformer that will render it.
pub struct EnvReader<T: Transform> {
    pub env: Vec<u8>,
    pub transformer: T,
}

impl<T: Transform> EnvReader<T> {
    pub fn new(env: Vec<u8>, transformer: T) -> (r: EnvReader<T>)
        ensures
            r.env == env,
            r.transformer == transformer,
    {
        EnvReader { env, transformer }
    }
}

/// Reads the env text and dispatches one declaration unit per entry, in file
/// order, to the transformer.  The value of each entry is classified by
/// trying, in order: a 32-bit signed integer parse, a 32-bit float parse, and
/// the string fallback.  The pass stops at the first line that fails, with
/// the units of the earlier lines already dispatched.
pub fn read_env<T: Transform>(env_reader: &mut EnvReader<T>) -> (r: Result<(), EnvError>)
    ensures
        final(env_reader).env == old(env_reader).env,
        match r {
            Ok(()) => vstd::utf8::valid_utf8(old(env_reader).env@) && env_well_formed(
                vstd::utf8::decode_utf8(old(env_reader).env@),
            ),
            Err(EnvError::Encoding) => !vstd::utf8::valid_utf8(old(env_reader).env@),
            Err(EnvError::MalformedLine) => vstd::utf8::valid_utf8(old(env_reader).env@)
                && !env_well_formed(vstd::utf8::decode_utf8(old(env_reader).env@)),
        },
{
    let text = match decode_env(&env_reader.env) {
        Some(t) => t,
        None => {
            return Err(EnvError::Encoding);
        },
    };
    let lines = split_lines(text.as_str());
    let ghost lm = lines_of(text@);
    let mut comments: Vec<String> = Vec::new();
    let n = lines.len();
    let mut li: usize = 0;
    proof {
        assert(lm.skip(0) =~= lm);
    }
    while li < n
        invariant
            n == lines@.len(),
            li <= n,
            lm == lines_of(text@),
            strs_model(lines@) == lm,
            vstd::utf8::valid_utf8(old(env_reader).env@),
            text@ == vstd::utf8::decode_utf8(old(env_reader).env@),
            env_reader.env == old(env_reader).env,
            env_well_formed(text@) <==> parse_lines(lm.skip(li as int), Seq::empty(), true)
                is Some,
        decreases n - li,
    {
        let trimmed = trim_str(lines[li].as_str());
        let ghost l = lm[li as int];
        let tn = trimmed.unicode_len();
        let ghost rem = lm.skip(li as int);
        proof {
            assert(strs_model(lines@)[li as int] == lines@[li as int]@);
            assert(trimmed@ == trim_spec(l));
            assert(rem[0] == l);
            assert(rem.drop_first() =~= lm.skip(li + 1 as int));
        }
        if tn == 0 {
            if env_reader.transformer.remove_comments_if_blank_line_occurs() {
                comments = Vec::new();
            }
            proof {
                assert(is_blank_line(l));
            }
        } else if trimmed.as_str().get_char(0) == '#' {
            proof {
                assert(is_comment_line(l));
            }
            let conv = convert_comment(trimmed.as_str());
            comments.push(conv);
            proof {
                lemma_parse_ok_independent(
                    lm.skip(li + 1 as int),
                    Seq::empty().push(comment_conv(trim_spec(l))),
                    true,
                    Seq::empty(),
                    true,
                );
            }
        } else {
            proof {
                assert(!is_blank_line(l) && !is_comment_line(l));
            }
            let eq = crate::text::find_char(trimmed.as_str(), '=');
            if eq == tn {
                proof {
                    assert(!entry_has_sep(l));
                    assert(parse_lines(rem, Seq::empty(), true) is None);
                }
                return Err(EnvError::MalformedLine);
            }
            let key = trimmed.substring_char(0, eq).to_owned();
            let val_txt = trimmed.substring_char(eq + 1, tn).to_owned();
            let value = classify(val_txt.as_str());
            let taken = comments;
            comments = Vec::new();
            env_reader.transformer.write(taken, key.as_str(), value);
        }
        li = li + 1;
    }
    proof {
        assert(lm.skip(n as int) =~= Seq::<Seq<char>>::empty());
    }
    Ok(())
}

} // verus!
