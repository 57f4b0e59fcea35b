use triskelion::protocol::{
    compute_body_size, find_opcode, find_place, is_complete, lay_out, opcode_metadata, parse_enum,
    parse_field, parse_protocol_def_full, parse_server_protocol_version, parse_struct_sizes, read_field,
    read_field_bytes, read_requests, read_version, sanitize_field_name, size_of_type, sizes_agree,
    wine_src_candidates, Field, REPLY_HEADER, REQUEST_HEADER,
};

const DEF: &str = "\
/* a comment */
@REQ(new_process)
    obj_handle_t token;          /* process token */
    unsigned int access;
    unsigned short machine;
    data_size_t  info_size;
    timeout_t    when;
    VARARG(objattr,object_attributes);
@REPLY
    int          info;
    process_id_t pid;
    client_ptr_t entry;
@END

@REQ(close_handle)
    obj_handle_t handle;
@END
@REQ(select)
    int          flags;
    union select_op op;
    mystery_t    x;
@REPLY
    VARARG(contexts,contexts);
";

fn field(name: &str, size: u32, align: u32) -> Field {
    Field { name: name.to_string(), size, align }
}

#[test]
fn types_have_sizes() {
    assert_eq!(size_of_type("int"), Some((4, 4)));
    assert_eq!(size_of_type("unsigned __int64"), Some((8, 8)));
    assert_eq!(size_of_type("short int"), Some((2, 2)));
    assert_eq!(size_of_type("char"), Some((1, 1)));
    assert_eq!(size_of_type("union select_op"), Some((264, 8)));
    assert_eq!(size_of_type("struct luid"), Some((8, 4)));
    assert_eq!(size_of_type("struct nothing"), None);
}

#[test]
fn a_line_declares_a_field() {
    let f = parse_field("  obj_handle_t  handle;  /* the handle */").unwrap();
    assert_eq!((f.name.as_str(), f.size, f.align), ("handle", 4, 4));
    let f = parse_field("unsigned short   machine;").unwrap();
    assert_eq!((f.name.as_str(), f.size, f.align), ("machine", 2, 2));
    let f = parse_field("short int  x;").unwrap();
    assert_eq!((f.name.as_str(), f.size), ("x", 2));
    let f = parse_field("struct rectangle rect;").unwrap();
    assert_eq!((f.name.as_str(), f.size, f.align), ("rect", 16, 4));
    assert!(parse_field("struct unknown_thing x;").is_none());
    assert!(parse_field("mystery_t x;").is_none());
    assert!(parse_field("int").is_none());
    assert!(parse_field("/* nothing */").is_none());
    let f = parse_field("int type;").unwrap();
    assert_eq!((f.name.as_str(), f.size), ("r#type", 4));
    let f = parse_field("struct async_data  async;").unwrap();
    assert_eq!((f.name.as_str(), f.size), ("r#async", 40));
    let f = parse_field("unsigned int  self;").unwrap();
    assert_eq!(f.name.as_str(), "is_self");
}

#[test]
fn words_of_the_language_are_no_field_names() {
    let marked = [
        "type", "async", "move", "ref", "mod", "match", "return", "where", "while", "for", "loop", "if",
        "else", "fn", "use", "in",
    ];
    for name in marked {
        assert_eq!(sanitize_field_name(name), format!("r#{name}"));
    }
    for name in ["self", "super", "crate"] {
        assert_eq!(sanitize_field_name(name), format!("is_{name}"));
    }
    for name in ["handle", "types", "", "struct", "Self"] {
        assert_eq!(sanitize_field_name(name), name);
    }
}

#[test]
fn requests_stand_in_the_order_of_their_opcodes() {
    let d = parse_protocol_def_full(DEF);
    let names: Vec<&str> = d.iter().map(|r| r.name.as_str()).collect();
    assert_eq!(names, vec!["new_process", "close_handle", "select"]);
    assert!(d[0].has_reply && !d[1].has_reply && d[2].has_reply);
    assert!(d[0].has_vararg_request && !d[0].has_vararg_reply);
    assert!(!d[2].has_vararg_request && d[2].has_vararg_reply);
    assert_eq!(d[0].req_fields.len(), 5);
    assert_eq!(d[2].req_fields.len(), 2);
    assert_eq!(find_opcode(&d, "close_handle"), Some(1));
    assert_eq!(find_opcode(&d, "open_handle"), None);
}

#[test]
fn fields_are_aligned_and_apart() {
    let d = parse_protocol_def_full(DEF);
    let (p, size) = lay_out(&d[0].req_fields, REQUEST_HEADER).unwrap();
    assert_eq!(find_place(&p, "token"), Some((12, 4)));
    assert_eq!(find_place(&p, "access"), Some((16, 4)));
    assert_eq!(find_place(&p, "machine"), Some((20, 2)));
    assert_eq!(find_place(&p, "info_size"), Some((24, 4)));
    assert_eq!(find_place(&p, "when"), Some((32, 8)));
    assert_eq!(find_place(&p, "nothing"), None);
    assert_eq!(size, 28);
    assert_eq!((REQUEST_HEADER + size as u32) % 8, 0);
    for w in p.windows(2) {
        assert!(w[0].at + w[0].size <= w[1].at);
    }
    let (p, size) = lay_out(&d[0].reply_fields, REPLY_HEADER).unwrap();
    assert_eq!(find_place(&p, "entry"), Some((16, 8)));
    assert_eq!(size, 16);
}

#[test]
fn fields_are_read_where_they_stand() {
    let d = parse_protocol_def_full(DEF);
    let (p, size) = lay_out(&d[0].req_fields, REQUEST_HEADER).unwrap();
    let buf: Vec<u8> = (0..40).collect();
    assert_eq!(read_field(&p, &buf, "token"), Some(0x0F0E_0D0C));
    assert_eq!(read_field(&p, &buf, "machine"), Some(0x1514));
    assert_eq!(read_field(&p, &buf, "when"), Some(0x2726_2524_2322_2120));
    assert_eq!(read_field(&p, &buf[..39], "when"), None);
    assert_eq!(read_field(&p, &buf, "nothing"), None);
    assert!(is_complete(&buf, size) && !is_complete(&buf[..39], size));
    let (p, _) = lay_out(&d[2].req_fields, REQUEST_HEADER).unwrap();
    let buf = vec![7u8; 280];
    assert_eq!(read_field(&p, &buf, "op"), None);
    assert_eq!(read_field_bytes(&p, &buf, "op").unwrap().len(), 264);
    assert_eq!(read_field_bytes(&p, &buf[..279], "op"), None);
}

#[test]
fn bodies_too_large_have_no_layout() {
    assert_eq!(compute_body_size(&vec![], REQUEST_HEADER), Some(4));
    assert_eq!(compute_body_size(&vec![], REPLY_HEADER), Some(0));
    assert_eq!(compute_body_size(&vec![field("a", 65528, 8)], REPLY_HEADER), Some(65528));
    assert_eq!(compute_body_size(&vec![field("a", 65529, 8)], REPLY_HEADER), None);
    assert_eq!(compute_body_size(&vec![field("a", u32::MAX, 1)], REPLY_HEADER), None);
}

#[test]
fn metadata_of_an_opcode() {
    let d = parse_protocol_def_full(DEF);
    let m = opcode_metadata(&d[0]).unwrap();
    assert_eq!(m.name, "new_process");
    assert_eq!((m.request_body_size, m.reply_body_size, m.reply_field_count), (28, 16, 3));
    assert!(m.has_vararg_request && !m.has_vararg_reply);
    let m = opcode_metadata(&d[1]).unwrap();
    assert_eq!((m.request_body_size, m.reply_body_size, m.reply_field_count), (4, 0, 0));
    let sizes = parse_struct_sizes("C_ASSERT( sizeof(struct close_handle_request) == 16 );\n");
    assert!(sizes_agree(&m, &sizes));
    let sizes = parse_struct_sizes("C_ASSERT( sizeof(struct close_handle_request) == 24 );\n");
    assert!(!sizes_agree(&m, &sizes));
}

#[test]
fn sizes_asserted_by_a_header() {
    let v = parse_struct_sizes(
        "#define C_ASSERT(e) x\nC_ASSERT( sizeof(union apc_call) == 64 );\n C_ASSERT( sizeof(struct x) == 8 );\r\nC_ASSERT( sizeof(struct y) == z );\n",
    );
    assert_eq!(v, vec![("union apc_call".to_string(), 64), ("x".to_string(), 8)]);
}

#[test]
fn names_of_an_enumeration() {
    let h = "enum other { A };\nenum request\n{\n    REQ_new_process,\n    REQ_get_x /* c */,\n    ODD,\n    REQ_nb_requests\n};\n";
    assert_eq!(
        parse_enum(h, "request", "REQ_"),
        vec!["new_process".to_string(), "get_x".to_string(), "ODD".to_string()]
    );
    assert_eq!(parse_enum(h, "message_type", "MSG_"), Vec::<String>::new());
    assert_eq!(parse_enum("enum request { A", "request", ""), Vec::<String>::new());
}

#[test]
fn version_of_the_protocol() {
    assert_eq!(parse_server_protocol_version("x\n #define SERVER_PROTOCOL_VERSION 930 /* v */\n"), Some(930));
    assert_eq!(parse_server_protocol_version("#define SERVER_PROTOCOL_VERSION\n"), None);
    assert_eq!(parse_server_protocol_version("#define SERVER_PROTOCOL_VERSION 4294967296\n"), None);
    assert_eq!(parse_server_protocol_version("int x;\n"), None);
}

#[test]
fn requests_are_read_from_what_there_is() {
    let h = "enum request { REQ_new_process, REQ_get_x, REQ_nb_requests };\n#define SERVER_PROTOCOL_VERSION 930\n";
    let full = read_requests(Some(DEF), Some(h));
    assert_eq!(full.len(), parse_protocol_def_full(DEF).len());
    assert!(!full[0].req_fields.is_empty());
    let bare = read_requests(None, Some(h));
    let names: Vec<&str> = bare.iter().map(|d| d.name.as_str()).collect();
    assert_eq!(names, ["new_process", "get_x"]);
    assert!(bare.iter().all(|d| d.req_fields.is_empty() && d.reply_fields.is_empty() && !d.has_reply));
    assert!(read_requests(None, None).is_empty());
    assert_eq!((read_version(Some(h)), read_version(Some("")), read_version(None)), (930, 0, 0));
}

#[test]
fn sources_are_looked_for_in_order() {
    assert_eq!(
        wine_src_candidates(Some("/w"), Some("/home/a")),
        vec!["/w", "/tmp/quark-wine-build/wine-src", "/home/a/.local/share/quark/wine-src", "/tmp/proton-wine"]
    );
    assert_eq!(wine_src_candidates(None, None)[0], "");
}
