use isla_lib::ast::Symtab;
use isla_lib::config::{ISAConfig, config_digest, parse_u64_text};
use isla_lib::litmus::{Litmus, Loc, Prop, assign_symbolic_addrs, assembler_input,
    extract_sections, generate_linker_script, parse_assertion, parse_litmus_source};
use isla_lib::sexp::{parse_sexp, sexp_to_string};

const CONFIG: &str = r#"
pc = "PC"
ifetch = "Read_ifetch"
read_exclusives = ["Read_exclusive"]
write_exclusives = ["Write_exclusive"]
assembler = "aarch64-linux-gnu-as -march=armv8.1-a"
objdump = "aarch64-linux-gnu-objdump"
linker = "aarch64-linux-gnu-ld"

[reads]
Read_plain = "R"
Read_exclusive = ["R", "X"]

[writes]
Write_plain = "W"
Write_exclusive = ["W", "X"]

[cache_ops]
DC = "DC"

[barriers]
Barrier_DMB = "dmb"

[mmu]
page_table_base = "0x300000"
page_size = "4096"
s2_page_table_base = "0x380000"
s2_page_size = "4096"

[threads]
base = "0x400000"
top = "0x500000"
stride = "0x10000"

[symbolic_addrs]
base = "0x100000"
stride = "8"

[registers.renames]
X0 = "R0"
"#;

fn arch_symtab() -> Symtab {
    let mut symtab = Symtab::new();
    // the architecture names the configuration refers to, pre-encoded
    for name in [
        "zPC",
        "zRead_ifetch",
        "zRead_exclusive",
        "zWrite_exclusive",
        "zRead_plain",
        "zWrite_plain",
        "zDC",
        "zBarrier_DMB",
        "zR0",
        "zR1",
        "zX0",
        "zX1",
    ] {
        symtab.intern(name.to_string());
    }
    symtab
}

fn arch_config(symtab: &Symtab) -> ISAConfig {
    ISAConfig::parse(CONFIG, symtab).expect("the test configuration parses")
}

#[test]
fn config_parses_layout_numbers() {
    let symtab = arch_symtab();
    let isa = arch_config(&symtab);
    assert_eq!(isa.symbolic_addr_base, 0x100000);
    assert_eq!(isa.symbolic_addr_stride, 8);
    assert_eq!(isa.thread_base, 0x400000);
    assert_eq!(isa.thread_top, 0x500000);
    assert_eq!(isa.thread_stride, 0x10000);
    assert_eq!(isa.page_size, 4096);
    assert_eq!(isa.pc, symtab.lookup("zPC"));
    assert_eq!(isa.ifetch_read_kind, symtab.lookup("zRead_ifetch"));
    assert_eq!(isa.assembler.executable, "aarch64-linux-gnu-as");
    assert_eq!(isa.assembler.options, vec!["-march=armv8.1-a".to_string()]);
    assert_eq!(isa.barriers.len(), 1);
    assert_eq!(isa.register_renames.len(), 1);
}

#[test]
fn config_rejects_bad_input() {
    let symtab = arch_symtab();
    assert!(ISAConfig::parse("this is [ not toml", &symtab).is_err());
    assert!(ISAConfig::parse("pc = \"NOSUCH\"", &symtab).is_err());
}

#[test]
fn parse_u64_accepts_hex_and_decimal() {
    assert_eq!(parse_u64_text(&"0x100000".to_string()), Some(0x100000));
    assert_eq!(parse_u64_text(&"4096".to_string()), Some(4096));
    assert_eq!(parse_u64_text(&"0xffffffffffffffff".to_string()), Some(u64::MAX));
    assert_eq!(parse_u64_text(&"0x10000000000000000".to_string()), None);
    assert_eq!(parse_u64_text(&"12ab".to_string()), None);
    assert_eq!(parse_u64_text(&"".to_string()), None);
}

#[test]
fn symbolic_addresses_follow_base_and_stride() {
    // two symbolic names at base 0x100000 with stride 8
    let addrs = assign_symbolic_addrs(
        vec!["x".to_string(), "y".to_string()],
        0x100000,
        8,
    );
    assert_eq!(addrs.len(), 2);
    assert_eq!(addrs[0], ("x".to_string(), 0x100000));
    assert_eq!(addrs[1], ("y".to_string(), 0x100008));
}

const LITMUS: &str = r#"
name = "MP"
symbolic = ["x", "y"]

[thread.0]
init = { X0 = "x" }
code = """
	mov w1, #1
	str w1, [x0]
"""

[thread.1]
init = { X0 = "y" }
code = """
	ldr w1, [x0]
"""

[final]
assertion = "(and (= (register X0 0) #x1) (not (= (register X0 1) #x0)))"
"#;

#[test]
fn litmus_source_parses_with_addresses_and_assertion() {
    let symtab = arch_symtab();
    let isa = arch_config(&symtab);
    let src = parse_litmus_source(LITMUS, &symtab, &isa).expect("the litmus source parses");
    assert_eq!(src.name, "MP");
    assert_eq!(src.symbolic_addrs.len(), 2);
    assert_eq!(src.symbolic_addrs[0], ("x".to_string(), 0x100000));
    assert_eq!(src.symbolic_addrs[1], ("y".to_string(), 0x100008));
    assert_eq!(src.threads.len(), 2);
    // X0 renames to R0, and both threads initialize it to their address
    let r0 = symtab.lookup("zR0");
    assert_eq!(src.threads[0].1, vec![(r0, 0x100000)]);
    assert_eq!(src.threads[1].1, vec![(r0, 0x100008)]);
    // the assertion has the documented shape
    match &src.final_assertion {
        Prop::And(props) => {
            assert_eq!(props.len(), 2);
            match &props[0] {
                Prop::EqLoc(Loc::Register { reg, thread_id }, bits) => {
                    assert_eq!(*reg, r0);
                    assert_eq!(*thread_id, 0);
                    assert_eq!(bits.unsigned(), 1);
                }
                other => panic!("unexpected first operand {:?}", other),
            }
            match &props[1] {
                Prop::Not(inner) => match &**inner {
                    Prop::EqLoc(Loc::Register { reg, thread_id }, bits) => {
                        assert_eq!(*reg, r0);
                        assert_eq!(*thread_id, 1);
                        assert_eq!(bits.unsigned(), 0);
                    }
                    other => panic!("unexpected negated operand {:?}", other),
                },
                other => panic!("unexpected second operand {:?}", other),
            }
        }
        other => panic!("unexpected assertion {:?}", other),
    }
}

#[test]
fn assertion_reparses_after_stringification() {
    let symtab = arch_symtab();
    let isa = arch_config(&symtab);
    let text = "(and (= (register X0 0) #x1) (not (= (register X0 1) #x0)))";
    let sexp = parse_assertion(text).expect("the assertion parses");
    let printed = sexp_to_string(&sexp);
    let reparsed = parse_sexp(printed.as_str()).expect("the printed assertion reparses");
    let p1 = Prop::from_sexp(&sexp, &symtab, &isa).expect("the assertion reads");
    let p2 = Prop::from_sexp(&reparsed, &symtab, &isa).expect("the reparse reads");
    assert_eq!(format!("{:?}", p1), format!("{:?}", p2));
}

#[test]
fn assertion_rejects_unknown_shapes() {
    let symtab = arch_symtab();
    let isa = arch_config(&symtab);
    let sexp = parse_assertion("(xor (= (register X0 0) #x1))").unwrap();
    assert!(Prop::from_sexp(&sexp, &symtab, &isa).is_none());
}

#[test]
fn assembler_input_wire_format() {
    let threads = vec![
        ("0".to_string(), "\tmov w1, #1\n".to_string()),
        ("1".to_string(), "\tldr w1, [x0]\n".to_string()),
    ];
    let input = assembler_input(&threads);
    assert_eq!(
        input,
        "\t.section litmus_0\n\tmov w1, #1\n\t.section litmus_1\n\tldr w1, [x0]\n"
    );
}

#[test]
fn linker_script_places_threads() {
    let symtab = arch_symtab();
    let isa = arch_config(&symtab);
    let threads = vec![
        ("0".to_string(), String::new()),
        ("1".to_string(), String::new()),
    ];
    let script = generate_linker_script(&threads, &isa);
    assert_eq!(
        script,
        "start = 0;\nSECTIONS\n{\n  . = 0x400000;\n  litmus_0 : { *(litmus_0) }\n  . = 0x410000;\n  litmus_1 : { *(litmus_1) }\n}\n"
    );
}

#[test]
fn extract_sections_rejects_non_elf() {
    let buffer = vec![0u8; 16];
    let threads = vec![("0".to_string(), String::new())];
    assert!(extract_sections(&buffer, &threads).is_err());
}

#[test]
fn config_digest_matches_known_vector() {
    // the standard test vector: the digest of "abc"
    let digest = config_digest("abc");
    let expected: [u8; 32] = [
        0xba, 0x78, 0x16, 0xbf, 0x8f, 0x01, 0xcf, 0xea, 0x41, 0x41, 0x40, 0xde, 0x5d, 0xae,
        0x22, 0x23, 0xb0, 0x03, 0x61, 0xa3, 0x96, 0x17, 0x7a, 0x9c, 0xb4, 0x10, 0xff, 0x61,
        0xf2, 0x00, 0x15, 0xad,
    ];
    assert_eq!(digest, expected.to_vec());
}

#[test]
fn default_config_is_complete() {
    // every key the parser requires is present in the built-in default
    let mut symtab = Symtab::new();
    for name in [
        "z_PC",
        "zRead_ifetch",
        "zRead_exclusive",
        "zWrite_exclusive",
        "zRead_plain",
        "zWrite_plain",
        "zDC",
        "zBarrier_DMB",
        "zBarrier_DSB",
        "zBarrier_ISB",
    ] {
        symtab.intern(name.to_string());
    }
    let isa = ISAConfig::new(&symtab).expect("the default configuration parses");
    assert_eq!(isa.symbolic_addr_base, 0x100000);
    assert_eq!(isa.thread_base, 0x400000);
}

/// A minimal 64-bit little-endian relocatable object: a null section, one
/// `litmus_0` section holding four bytes, and the section-name string
/// table.
fn tiny_elf() -> Vec<u8> {
    fn u16le(v: u16, out: &mut Vec<u8>) {
        out.extend_from_slice(&v.to_le_bytes());
    }
    fn u32le(v: u32, out: &mut Vec<u8>) {
        out.extend_from_slice(&v.to_le_bytes());
    }
    fn u64le(v: u64, out: &mut Vec<u8>) {
        out.extend_from_slice(&v.to_le_bytes());
    }
    let mut elf = Vec::new();
    // the identification bytes: ELF, 64-bit, little-endian, version 1
    elf.extend_from_slice(&[0x7F, 0x45, 0x4C, 0x46, 2, 1, 1, 0, 0, 0, 0, 0, 0, 0, 0, 0]);
    u16le(1, &mut elf); // a relocatable object
    u16le(0xB7, &mut elf); // an aarch64 machine
    u32le(1, &mut elf); // version
    u64le(0, &mut elf); // entry
    u64le(0, &mut elf); // program header offset
    u64le(88, &mut elf); // section header offset
    u32le(0, &mut elf); // flags
    u16le(64, &mut elf); // ELF header size
    u16le(0, &mut elf); // program header entry size
    u16le(0, &mut elf); // program header count
    u16le(64, &mut elf); // section header entry size
    u16le(3, &mut elf); // section count
    u16le(2, &mut elf); // string table index
    assert_eq!(elf.len(), 64);
    // the litmus_0 section body at offset 64
    elf.extend_from_slice(&[0xDE, 0xAD, 0xBE, 0xEF]);
    // the string table at offset 68: "\0litmus_0\0.shstrtab\0"
    elf.push(0);
    elf.extend_from_slice(b"litmus_0\0");
    elf.extend_from_slice(b".shstrtab\0");
    assert_eq!(elf.len(), 88);
    // the null section header
    for _ in 0..8 {
        u64le(0, &mut elf);
    }
    // the litmus_0 section header
    u32le(1, &mut elf); // name offset in the string table
    u32le(1, &mut elf); // program bits
    u64le(0, &mut elf); // flags
    u64le(0, &mut elf); // address
    u64le(64, &mut elf); // file offset
    u64le(4, &mut elf); // size
    u32le(0, &mut elf); // link
    u32le(0, &mut elf); // info
    u64le(1, &mut elf); // alignment
    u64le(0, &mut elf); // entry size
    // the string table section header
    u32le(10, &mut elf); // name offset in the string table
    u32le(3, &mut elf); // string table
    u64le(0, &mut elf);
    u64le(0, &mut elf);
    u64le(68, &mut elf); // file offset
    u64le(20, &mut elf); // size
    u32le(0, &mut elf);
    u32le(0, &mut elf);
    u64le(1, &mut elf);
    u64le(0, &mut elf);
    elf
}

#[test]
fn extract_sections_reads_thread_bytes() {
    let buffer = tiny_elf();
    let threads = vec![("0".to_string(), String::new())];
    let assembled = extract_sections(&buffer, &threads).expect("the object parses");
    assert_eq!(assembled.len(), 1);
    assert_eq!(assembled[0].0, "0");
    assert_eq!(assembled[0].1, vec![0xDE, 0xAD, 0xBE, 0xEF]);
}
