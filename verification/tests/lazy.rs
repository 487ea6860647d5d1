use env_reader::to_lazy_static::{
    preamble_text, read_env, render_lazy_block, LazyTransform, LazyTransformDefault,
};
use env_reader::{EnvError, EnvReader, EnvType, Transform};

#[test]
fn lazy_block_derives_accessor_names_from_types() {
    let input = b"SOME_KEY=hello\nSOME_FLOAT=1.5\n".to_vec();
    let out = render_lazy_block(&input, true).unwrap();
    let expected = format!(
        "{}{}{}{}",
        preamble_text(),
        "    pub static ref SOME_KEY: String = string_var(\"SOME_KEY\");\n",
        "    pub static ref SOME_FLOAT: f32 = f32_var(\"SOME_FLOAT\");\n",
        "}\n",
    );
    assert_eq!(out, expected);
}

#[test]
fn rendering_twice_is_byte_identical() {
    let input = b"# port\nPORT=8080\n\nNAME=app\nRATE=0.5\n".to_vec();
    let first = render_lazy_block(&input, true).unwrap();
    let second = render_lazy_block(&input, true).unwrap();
    assert_eq!(first, second);
}

#[test]
fn dispatcher_and_pure_renderer_agree() {
    let input = b"# port\nPORT=8080\nNAME=app\n".to_vec();
    let mut reader = EnvReader::new(input.clone(), LazyTransformDefault { output: String::new() });
    assert_eq!(read_env(&mut reader), Ok(()));
    let pure = render_lazy_block(&input, true).unwrap();
    assert_eq!(reader.transformer.output, pure);
}

#[test]
fn comments_are_indented_above_their_binding() {
    let input = b"# the port\nPORT=8080\n".to_vec();
    let out = render_lazy_block(&input, true).unwrap();
    assert!(out.contains("    // the port\n    pub static ref PORT: i32 = i32_var(\"PORT\");\n"));
}

#[test]
fn lazy_block_opens_and_closes() {
    let out = render_lazy_block(&b"A=1\n".to_vec(), true).unwrap();
    assert!(out.contains("lazy_static::lazy_static! {\n"));
    assert!(out.ends_with("}\n"));
    assert!(out.starts_with("fn string_var"));
}

#[test]
fn lazy_render_fails_on_malformed_input() {
    match render_lazy_block(&b"OOPS\n".to_vec(), true) {
        Err(e) => assert_eq!(e, EnvError::MalformedLine),
        Ok(_) => panic!("a line without a separator must fail"),
    }
}

struct Widening {
    output: String,
}

impl Transform for Widening {
    fn clear_policy(&self) -> bool {
        true
    }

    fn remove_comments_if_blank_line_occurs(&self) -> bool {
        true
    }

    fn write(&mut self, comments: Vec<String>, key: &str, inferred_type: EnvType) {
        self.lazy_static_write(comments, key, inferred_type);
    }
}

impl LazyTransform for Widening {
    fn append_output(&mut self, text: &str) {
        self.output.push_str(text);
    }

    fn key_value(
        &mut self,
        _comments: Vec<String>,
        key: &str,
        inferred_type: EnvType,
    ) -> (String, EnvType) {
        if key == "SOME_I64_VAL" {
            (key.to_string(), EnvType::I64(inferred_type.raw_value().parse().unwrap()))
        } else {
            (key.to_string(), inferred_type)
        }
    }
}

#[test]
fn key_value_hook_can_retag_a_value() {
    let mut reader = EnvReader::new(
        b"SOME_I64_VAL=12\nOTHER=5\n".to_vec(),
        Widening { output: String::new() },
    );
    assert_eq!(read_env(&mut reader), Ok(()));
    let out = reader.transformer.output;
    assert!(out.contains("    pub static ref SOME_I64_VAL: i64 = i64_var(\"SOME_I64_VAL\");\n"));
    assert!(out.contains("    pub static ref OTHER: i32 = i32_var(\"OTHER\");\n"));
}

#[test]
fn custom_transform_accessor_is_used_verbatim() {
    let custom = EnvType::Custom(env_reader::CustomValue {
        rust_type: "Port".to_string(),
        raw_value: "8080".to_string(),
        value: "Port::new(8080)".to_string(),
        transform: "port_var".to_string(),
    });
    let mut sink = LazyTransformDefault { output: String::new() };
    sink.write(Vec::new(), "PORT", custom);
    assert_eq!(sink.output, "    pub static ref PORT: Port = port_var(\"PORT\");\n");
}
