//! Renders each declaration unit as an entry of a single block of
//! lazily-initialized globals whose values are looked up in the process
//! environment on first access.

use vstd::prelude::*;
use crate::parser::{
    read_env as dispatch_env, parse_units, parse_env, env_well_formed, strs_model, units_model,
    EnvReader, EnvError, Transform, UnitModel,
};
use crate::text::{lower_seq, to_ascii_lowercase};
use crate::value::{rust_type_spec, EnvType, ValueModel};

verus! {

/// The type a value is bound as inside the block: the block's values must own
/// their storage, so strings render as the growable string type.
pub open spec fn lazy_raw_type(m: ValueModel) -> Seq<char> {
    match m {
        ValueModel::Str(_) => "String"@,
        _ => rust_type_spec(m),
    }
}

/// The accessor invoked to produce a value: for the built-in types the
/// lower-cased type name with a fixed suffix; a capability supplies its own
/// expression verbatim.
pub open spec fn lazy_accessor(m: ValueModel) -> Seq<char> {
    match m {
        ValueModel::Custom(c) => c.transform,
        _ => lower_seq(lazy_raw_type(m)) + "_var"@,
    }
}

/// One comment line, indented to the block's nesting level.
pub open spec fn comment_line_spec(c: Seq<char>) -> Seq<char> {
    "    "@ + c + "\n"@
}

/// The comment lines written above a binding, in order.
pub open spec fn comments_text(cs: Seq<Seq<char>>) -> Seq<char>
    decreases cs.len(),
{
    if cs.len() == 0 {
        Seq::empty()
    } else {
        comments_text(cs.drop_last()) + comment_line_spec(cs.last())
    }
}

/// The binding statement of one entry.
pub open spec fn binding_spec(key: Seq<char>, m: ValueModel) -> Seq<char> {
    "    pub static ref "@ + key + ": "@ + lazy_raw_type(m) + " = "@ + lazy_accessor(m) + "(\""@
        + key + "\");\n"@
}

/// Everything emitted for one unit: its comments, then its binding.
pub open spec fn unit_text_spec(comments: Seq<Seq<char>>, key: Seq<char>, m: ValueModel) -> Seq<
    char,
> {
    comments_text(comments) + binding_spec(key, m)
}

/// Renders the comments and binding of one unit.
pub fn lazy_entry_text(comments: &Vec<String>, key: &str, ty: &EnvType) -> (r: String)
    ensures
        r@ == unit_text_spec(strs_model(comments@), key@, ty@),
{
    let mut out = String::new();
    let n = comments.len();
    let mut i: usize = 0;
    proof {
        assert(strs_model(comments@).take(0) =~= Seq::<Seq<char>>::empty());
    }
    while i < n
        invariant
            n == comments@.len(),
            i <= n,
            out@ == comments_text(strs_model(comments@).take(i as int)),
        decreases n - i,
    {
        out.append("    ");
        out.append(comments[i].as_str());
        out.append("\n");
        proof {
            let cs = strs_model(comments@);
            assert(cs.take(i + 1 as int).drop_last() =~= cs.take(i as int));
            assert(cs.take(i + 1 as int).last() == comments@[i as int]@);
            assert(out@ =~= comments_text(cs.take(i + 1 as int)));
        }
        i = i + 1;
    }
    proof {
        assert(strs_model(comments@).take(n as int) =~= strs_model(comments@));
    }
    let raw_type = match ty {
        EnvType::StaticStr(_) => String::from_str("String"),
        _ => ty.rust_type(),
    };
    let accessor = match ty {
        EnvType::Custom(c) => c.transform.clone(),
        _ => {
            let mut acc = to_ascii_lowercase(raw_type.as_str());
            acc.append("_var");
            acc
        },
    };
    out.append("    pub static ref ");
    out.append(key);
    out.append(": ");
    out.append(raw_type.as_str());
    out.append(" = ");
    out.append(accessor.as_str());
    out.append("(\"");
    out.append(key);
    out.append("\");\n");
    proof {
        assert(out@ =~= unit_text_spec(strs_model(comments@), key@, ty@));
    }
    out
}

/// The fixed helper text emitted before any binding: one environment-lookup
/// accessor per supported primitive type, then the opening of the block.
pub open spec fn preamble_spec() -> Seq<char> {
    "fn string_var(v: &str) -> String {\n    std::env::var(v).unwrap()\n}\n\nmacro_rules! num_var {\n    ($v: ident, $num: ty) => {\n        #[allow(dead_code)]\n        fn $v(v: &str) -> $num {\n            string_var(v).parse().unwrap()\n        }\n    };\n}\n\nnum_var!(i32_var, i32);\nnum_var!(i64_var, i64);\nnum_var!(i128_var, i128);\nnum_var!(u8_var, u8);\nnum_var!(u32_var, u32);\nnum_var!(u128_var, u128);\nnum_var!(f32_var, f32);\nnum_var!(f64_var, f64);\nnum_var!(usize_var, usize);\nnum_var!(bool_var, bool);\n\nlazy_static::lazy_static! {\n"@
}

/// The fixed helper text emitted before any binding.
pub fn preamble_text() -> (r: String)
    ensures
        r@ == preamble_spec(),
{
    String::from_str(
        "fn string_var(v: &str) -> String {\n    std::env::var(v).unwrap()\n}\n\nmacro_rules! num_var {\n    ($v: ident, $num: ty) => {\n        #[allow(dead_code)]\n        fn $v(v: &str) -> $num {\n            string_var(v).parse().unwrap()\n        }\n    };\n}\n\nnum_var!(i32_var, i32);\nnum_var!(i64_var, i64);\nnum_var!(i128_var, i128);\nnum_var!(u8_var, u8);\nnum_var!(u32_var, u32);\nnum_var!(u128_var, u128);\nnum_var!(f32_var, f32);\nnum_var!(f64_var, f64);\nnum_var!(usize_var, usize);\nnum_var!(bool_var, bool);\n\nlazy_static::lazy_static! {\n",
    )
}

/// A transformer that renders units as entries of the lazy block.  A plain
/// implementation only has to say where the rendered text goes and how a unit
/// may be remapped; `write` on the `Transform` side is expected to delegate
/// to `lazy_static_write`.
pub trait LazyTransform: Transform {
    /// Whether comment lines should be kept above each binding.
    fn write_comments(&self) -> bool {
        true
    }

    /// Runs before the helper preamble; override to emit custom accessor
    /// definitions.
    fn write_custom_transformers(&mut self) {
    }

    /// Appends rendered text to this transformer's output.
    fn append_output(&mut self, text: &str);

    /// Lets the consumer remap a unit's key and value before rendering.
    fn key_value(&mut self, comments: Vec<String>, key: &str, inferred_type: EnvType) -> (
        String,
        EnvType,
    );

    /// Renders one unit as a lazily-initialized binding and appends it.
    fn lazy_static_write(&mut self, comments: Vec<String>, key: &str, inferred_type: EnvType) {
        let (new_key, ty) = self.key_value(comments.clone(), key, inferred_type);
        let text = lazy_entry_text(&comments, new_key.as_str(), &ty);
        self.append_output(text.as_str());
    }
}

/// A ready-made transformer for consumers that need no customization: it
/// renders every unit unchanged into an owned output buffer.
pub struct LazyTransformDefault {
    pub output: String,
}

impl Transform for LazyTransformDefault {
    open spec fn clear_policy(&self) -> bool {
        true
    }

    fn remove_comments_if_blank_line_occurs(&self) -> (r: bool)
        ensures
            r == self.clear_policy(),
    {
        true
    }

    fn write(&mut self, comments: Vec<String>, key: &str, inferred_type: EnvType) {
        let text = lazy_entry_text(&comments, key, &inferred_type);
        self.output.append(text.as_str());
    }
}

impl LazyTransform for LazyTransformDefault {
    fn append_output(&mut self, text: &str) {
        self.output.append(text);
    }

    fn key_value(&mut self, _comments: Vec<String>, key: &str, inferred_type: EnvType) -> (
        String,
        EnvType,
    ) {
        (key.to_owned(), inferred_type)
    }
}

/// Reads the env text and renders it through a [`LazyTransform`]: custom
/// accessors and the helper preamble first, then one binding per entry, then
/// the closing of the block.  A failed pass stops at the failing line, with
/// everything already appended left in place.
pub fn read_env<T: LazyTransform>(env_reader: &mut EnvReader<T>) -> (r: Result<(), EnvError>)
    ensures
        final(env_reader).env == old(env_reader).env,
        match r {
            Ok(()) => vstd::utf8::valid_utf8(old(env_reader).env@) && env_well_formed(
                vstd::utf8::decode_utf8(old(env_reader).env@),
            ),
            Err(EnvError::Encoding) => !vstd::utf8::valid_utf8(old(env_reader).env@),
            Err(EnvError::MalformedLine) => vstd::utf8::valid_utf8(old(env_reader).env@)
                && !env_well_formed(vstd::utf8::decode_utf8(old(env_reader).env@)),
        },
{
    env_reader.transformer.write_custom_transformers();
    let pre = preamble_text();
    env_reader.transformer.append_output(pre.as_str());
    let outcome = dispatch_env(env_reader);
    match outcome {
        Ok(()) => {
            env_reader.transformer.append_output("}\n");
            Ok(())
        },
        Err(e) => Err(e),
    }
}

/// The text of the whole rendered block for a given input.
pub open spec fn units_text(us: Seq<UnitModel>) -> Seq<char>
    decreases us.len(),
{
    if us.len() == 0 {
        Seq::empty()
    } else {
        units_text(us.drop_last()) + unit_text_spec(
            us.last().comments,
            us.last().key,
            us.last().value,
        )
    }
}

/// The lazy block an input renders to, when every line of it is well formed.
pub open spec fn lazy_block_spec(s: Seq<char>, clear: bool) -> Option<Seq<char>> {
    match parse_env(s, clear) {
        None => None,
        Some(us) => Some(preamble_spec() + units_text(us) + "}\n"@),
    }
}

/// Renders a whole env input as the lazy block in one pure pass.  The output
/// is a function of the input bytes and the policy alone, so running the
/// pipeline twice on identical input produces identical output.
pub fn render_lazy_block(env: &Vec<u8>, clear_comments_on_blank: bool) -> (r: Result<
    String,
    EnvError,
>)
    ensures
        match r {
            Ok(out) => vstd::utf8::valid_utf8(env@) && lazy_block_spec(
                vstd::utf8::decode_utf8(env@),
                clear_comments_on_blank,
            ) == Some(out@),
            Err(EnvError::Encoding) => !vstd::utf8::valid_utf8(env@),
            Err(EnvError::MalformedLine) => vstd::utf8::valid_utf8(env@) && lazy_block_spec(
                vstd::utf8::decode_utf8(env@),
                clear_comments_on_blank,
            ) is None,
        },
{
    let units = match parse_units(env, clear_comments_on_blank) {
        Ok(us) => us,
        Err(e) => {
            return Err(e);
        },
    };
    let mut out = preamble_text();
    let n = units.len();
    let mut i: usize = 0;
    proof {
        assert(units_model(units@).take(0) =~= Seq::<UnitModel>::empty());
        assert(out@ =~= preamble_spec() + units_text(units_model(units@).take(0)));
    }
    while i < n
        invariant
            n == units@.len(),
            i <= n,
            out@ == preamble_spec() + units_text(units_model(units@).take(i as int)),
        decreases n - i,
    {
        let entry = lazy_entry_text(&units[i].comments, units[i].key.as_str(), &units[i].value);
        out.append(entry.as_str());
        proof {
            let um = units_model(units@);
            assert(um.take(i + 1 as int).drop_last() =~= um.take(i as int));
            assert(um.take(i + 1 as int).last() == units@[i as int]@);
            assert(out@ =~= preamble_spec() + units_text(um.take(i + 1 as int)));
        }
        i = i + 1;
    }
    out.append("}\n");
    proof {
        assert(units_model(units@).take(n as int) =~= units_model(units@));
        assert(out@ =~= preamble_spec() + units_text(units_model(units@)) + "}\n"@);
    }
    Ok(out)
}

} // verus!
