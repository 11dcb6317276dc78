//! The ISA configuration: a declarative description of the architecture,
//! read from configuration text.

use vstd::prelude::*;
use vstd::string::StringSliceAdditionalSpecFns;
use crate::ast::Symtab;
use crate::strings::{all_dec_digits, dec_value, is_dec_digit};
use crate::toml_model::{TomlValue, AbsToml, toml_get, toml_as_str, parse_toml, toml_of, table_first};
use crate::value::Val;
use crate::zencode;

verus! {

/// An external tool the front end invokes: the command name, to be
/// resolved against the search path by the embedding program, and its
/// leading options.
#[derive(Debug)]
pub struct Tool {
    /// The command name or path.
    pub executable: String,
    /// The options that always precede the per-run arguments.
    pub options: Vec<String>,
}

/// An event kind: how an architectural event is classed for memory-model
/// category sets.
#[derive(Debug)]
pub enum Kind<A> {
    /// A read kind.
    Read(A),
    /// A write kind.
    Write(A),
    /// A cache-operation kind.
    CacheOp(A),
}

/// The ISA configuration.
#[derive(Debug)]
pub struct ISAConfig {
    /// The interned name of the program-counter register.
    pub pc: u32,
    /// The interned read kind of instruction fetches.
    pub ifetch_read_kind: u32,
    /// The exclusive read kinds.
    pub read_exclusives: Vec<u32>,
    /// The exclusive write kinds.
    pub write_exclusives: Vec<u32>,
    /// The memory-model category sets, each with its event kinds.
    pub event_sets: Vec<(String, Vec<Kind<u32>>)>,
    /// The assembler command.
    pub assembler: Tool,
    /// The object-dump command.
    pub objdump: Tool,
    /// The linker command.
    pub linker: Tool,
    /// The barrier kinds, each with its memory-model name.
    pub barriers: Vec<(u32, String)>,
    /// The base address of the page tables.
    pub page_table_base: u64,
    /// The bytes in a page.
    pub page_size: u64,
    /// The base address of the stage 2 page tables.
    pub s2_page_table_base: u64,
    /// The bytes in a stage 2 page.
    pub s2_page_size: u64,
    /// The base address of litmus thread code.
    pub thread_base: u64,
    /// The top of the thread memory region.
    pub thread_top: u64,
    /// The bytes between thread sections.
    pub thread_stride: u64,
    /// The first symbolic address.
    pub symbolic_addr_base: u64,
    /// The bytes between symbolic addresses.
    pub symbolic_addr_stride: u64,
    /// Default values of registers.
    pub default_registers: Vec<(u32, Val)>,
    /// Reset values of registers.
    pub reset_registers: Vec<(u32, Val)>,
    /// Register synonyms.
    pub register_renames: Vec<(String, u32)>,
    /// Registers ignored by footprint analysis.
    pub ignored_registers: Vec<u32>,
}

/// The value of the first rename entry with the given synonym.
pub open spec fn renames_first(s: Seq<(String, u32)>, name: Seq<char>) -> Option<u32>
    decreases s.len(),
{
    if s.len() == 0 {
        None
    } else if s[0].0@ == name {
        Some(s[0].1)
    } else {
        renames_first(s.drop_first(), name)
    }
}

/// Within a prefix without the synonym, the first match lies in the rest.
proof fn lemma_renames_first_skip(s: Seq<(String, u32)>, name: Seq<char>, k: int)
    requires
        0 <= k <= s.len(),
        forall|i: int| 0 <= i < k ==> (#[trigger] s[i]).0@ != name,
    ensures
        renames_first(s, name) == renames_first(s.subrange(k, s.len() as int), name),
    decreases k,
{
    if k == 0 {
        assert(s.subrange(0, s.len() as int) =~= s);
    } else {
        assert(s.drop_first() =~= s.subrange(1, s.len() as int));
        assert forall|i: int| 0 <= i < k - 1 implies (#[trigger] s.drop_first()[i]).0@ != name by {
            assert(s.drop_first()[i] == s[i + 1]);
        }
        lemma_renames_first_skip(s.drop_first(), name, k - 1);
        assert(s.drop_first().subrange(k - 1, s.drop_first().len() as int) =~= s.subrange(
            k,
            s.len() as int,
        ));
    }
}

impl ISAConfig {
    /// Look a register synonym up in the rename table: the first entry with
    /// that synonym.
    #[verifier::loop_isolation(false)]
    pub fn rename_lookup(&self, name: &String) -> (r: Option<u32>)
        ensures
            match r {
                Some(n) => renames_first(self.register_renames@, name@) == Some(n),
                None => renames_first(self.register_renames@, name@) is None,
            },
    {
        let mut k: usize = 0;
        while k < self.register_renames.len()
            invariant
                k <= self.register_renames@.len(),
                forall|i: int|
                    0 <= i < k ==> (#[trigger] self.register_renames@[i]).0@ != name@,
            decreases self.register_renames@.len() - k,
        {
            if self.register_renames[k].0 == *name {
                proof {
                    let s = self.register_renames@;
                    lemma_renames_first_skip(s, name@, k as int);
                    let rest = s.subrange(k as int, s.len() as int);
                    assert(rest[0] == s[k as int]);
                }
                return Some(self.register_renames[k].1);
            }
            k += 1;
        }
        proof {
            let s = self.register_renames@;
            lemma_renames_first_skip(s, name@, s.len() as int);
            assert(s.subrange(s.len() as int, s.len() as int).len() == 0);
        }
        None
    }
}

/// The digest of a byte sequence under the configured hash; the result
/// depends on the bytes alone.
pub uninterp spec fn sha256_of(data: Seq<u8>) -> Seq<u8>;

/// Hash bytes for provenance.
///
/// Relies on `sha2::Sha256` through the `Digest` trait: the digest is 32
/// bytes and depends on the input bytes alone; named by [`sha256_of`].
#[verifier::external_body]
fn sha256_bytes(data: &Vec<u8>) -> (r: Vec<u8>)
    ensures
        r@ == sha256_of(data@),
        r@.len() == 32,
{
    <sha2::Sha256 as sha2::Digest>::digest(data.as_slice()).to_vec()
}

/// The digest of configuration text, recorded for provenance when a
/// configuration is loaded.
pub fn config_digest(contents: &str) -> (r: Vec<u8>)
    ensures
        r@ == sha256_of(contents.spec_bytes()),
        r@.len() == 32,
{
    let bytes = contents.as_bytes_vec();
    sha256_bytes(&bytes)
}

/// The numeric value of hexadecimal digit text.
pub open spec fn hex_value(s: Seq<char>) -> int
    decreases s.len(),
{
    if s.len() == 0 {
        0
    } else {
        hex_value(s.drop_last()) * 16 + hex_digit_value(s.last())
    }
}

/// The value of one hexadecimal digit character.
pub open spec fn hex_digit_value(c: char) -> int {
    if '0' <= c <= '9' {
        c as int - '0' as int
    } else if 'a' <= c <= 'f' {
        c as int - 'a' as int + 10
    } else if 'A' <= c <= 'F' {
        c as int - 'A' as int + 10
    } else {
        16
    }
}

/// Whether a character is a hexadecimal digit.
pub open spec fn is_hex_digit(c: char) -> bool {
    hex_digit_value(c) < 16
}

/// Whether every character is a hexadecimal digit.
pub open spec fn all_hex_digits(s: Seq<char>) -> bool {
    forall|i: int| 0 <= i < s.len() ==> is_hex_digit(#[trigger] s[i])
}

/// The parse of configuration number text: hexadecimal under a `0x`
/// prefix, else decimal; the digits must be non-empty and the value must
/// fit in 64 bits.
pub open spec fn spec_parse_u64(t: Seq<char>) -> Option<u64> {
    if t.len() >= 2 && t[0] == '0' && t[1] == 'x' {
        let digits = t.subrange(2, t.len() as int);
        if digits.len() == 0 || !all_hex_digits(digits) || hex_value(digits) > u64::MAX {
            None
        } else {
            Some(hex_value(digits) as u64)
        }
    } else {
        if t.len() == 0 || !all_dec_digits(t) || dec_value(t) > u64::MAX {
            None
        } else {
            Some(dec_value(t) as u64)
        }
    }
}

/// Parse configuration number text.
#[verifier::loop_isolation(false)]
pub fn parse_u64_text(t: &String) -> (r: Option<u64>)
    ensures
        r == spec_parse_u64(t@),
{
    let len = t.as_str().unicode_len();
    let hex = len >= 2 && (t.as_str().get_char(0) as u32) == 48 && (t.as_str().get_char(1) as u32)
        == 120;
    proof {
        assert('0' as u32 == 48 && 'x' as u32 == 120);
        if t@.len() >= 2 {
            assert(hex == (t@[0] == '0' && t@[1] == 'x'));
        }
    }
    let start: usize = if hex {
        2
    } else {
        0
    };
    if start >= len {
        return None;
    }
    let ghost digits = t@.subrange(start as int, t@.len() as int);
    proof {
        if !hex {
            assert(digits =~= t@);
        }
    }
    let mut acc: u64 = 0;
    let mut k = start;
    while k < len
        invariant
            start <= k <= len,
            forall|i: int|
                start <= i < k ==> (if hex {
                    is_hex_digit(#[trigger] t@[i])
                } else {
                    is_dec_digit(t@[i])
                }),
            acc == if hex {
                hex_value(t@.subrange(start as int, k as int))
            } else {
                dec_value(t@.subrange(start as int, k as int))
            },
        decreases len - k,
    {
        let c = t.as_str().get_char(k);
        let cu = c as u32;
        let d: u32 = if 48 <= cu && cu <= 57 {
            cu - 48
        } else if hex && 97 <= cu && cu <= 102 {
            cu - 87
        } else if hex && 65 <= cu && cu <= 70 {
            cu - 55
        } else {
            proof {
                assert('0' as u32 == 48 && '9' as u32 == 57 && 'a' as u32 == 97 && 'f' as u32
                    == 102 && 'A' as u32 == 65 && 'F' as u32 == 70);
                assert(digits[k - start] == t@[k as int]);
                if hex {
                    assert(!is_hex_digit(t@[k as int]));
                    assert(!all_hex_digits(digits));
                } else {
                    assert(!is_dec_digit(t@[k as int]));
                    assert(!all_dec_digits(digits));
                }
            }
            return None;
        };
        proof {
            assert('0' as u32 == 48 && '9' as u32 == 57 && 'a' as u32 == 97 && 'f' as u32 == 102
                && 'A' as u32 == 65 && 'F' as u32 == 70);
            let p1 = t@.subrange(start as int, k as int + 1);
            assert(p1.drop_last() =~= t@.subrange(start as int, k as int));
            assert(p1.last() == t@[k as int]);
            if hex {
                assert(d == hex_digit_value(t@[k as int]));
            } else {
                assert(d == t@[k as int] as int - '0' as int);
            }
        }
        let base: u64 = if hex {
            16
        } else {
            10
        };
        acc = match acc.checked_mul(base) {
            Some(m) => match m.checked_add(d as u64) {
                Some(a) => a,
                None => {
                    proof {
                        lemma_number_overflow(t@, digits, start as int, k as int, hex);
                    }
                    return None;
                },
            },
            None => {
                proof {
                    lemma_number_overflow(t@, digits, start as int, k as int, hex);
                }
                return None;
            },
        };
        k += 1;
    }
    proof {
        assert(t@.subrange(start as int, len as int) =~= digits);
    }
    Some(acc)
}

/// Once a digit prefix exceeds 64 bits the whole number does, whatever the
/// remaining characters are.
pub(crate) proof fn lemma_number_overflow(t: Seq<char>, digits: Seq<char>, start: int, k: int, hex: bool)
    requires
        0 <= start <= k < t.len(),
        digits == t.subrange(start, t.len() as int),
        forall|i: int|
            start <= i < k + 1 ==> (if hex {
                is_hex_digit(#[trigger] t[i])
            } else {
                is_dec_digit(t[i])
            }),
        (if hex {
            hex_value(t.subrange(start, k + 1))
        } else {
            dec_value(t.subrange(start, k + 1))
        }) > u64::MAX,
    ensures
        hex ==> (all_hex_digits(digits) ==> hex_value(digits) > u64::MAX),
        !hex ==> (all_dec_digits(digits) ==> dec_value(digits) > u64::MAX),
{
    if hex {
        if all_hex_digits(digits) {
            lemma_hex_prefix_le(digits, k + 1 - start);
            assert(t.subrange(start, k + 1) =~= digits.subrange(0, k + 1 - start));
        }
    } else {
        if all_dec_digits(digits) {
            lemma_dec_prefix_le(digits, k + 1 - start);
            assert(t.subrange(start, k + 1) =~= digits.subrange(0, k + 1 - start));
        }
    }
}

/// All-hex-digit text has a value at least that of any prefix.
proof fn lemma_hex_prefix_le(s: Seq<char>, j: int)
    requires
        0 <= j <= s.len(),
        all_hex_digits(s),
    ensures
        0 <= hex_value(s.subrange(0, j)),
        hex_value(s.subrange(0, j)) <= hex_value(s),
    decreases s.len() - j,
{
    if j == s.len() {
        assert(s.subrange(0, j) =~= s);
        lemma_hex_nonneg(s, j);
    } else {
        lemma_hex_prefix_le(s, j + 1);
        lemma_hex_nonneg(s, j);
        let p = s.subrange(0, j);
        let q = s.subrange(0, j + 1);
        assert(q.drop_last() =~= p);
        assert(hex_value(q) == hex_value(p) * 16 + hex_digit_value(q.last()));
        assert(hex_value(p) * 16 >= hex_value(p)) by (nonlinear_arith)
            requires
                hex_value(p) >= 0,
        ;
    }
}

/// The value of all-hex-digit text is never negative.
proof fn lemma_hex_nonneg(s: Seq<char>, j: int)
    requires
        0 <= j <= s.len(),
        forall|i: int| 0 <= i < j ==> is_hex_digit(#[trigger] s[i]),
    ensures
        0 <= hex_value(s.subrange(0, j)),
    decreases j,
{
    if j > 0 {
        lemma_hex_nonneg(s, j - 1);
        let p = s.subrange(0, j);
        assert(p.drop_last() =~= s.subrange(0, j - 1));
        assert(hex_value(s.subrange(0, j - 1)) * 16 >= 0) by (nonlinear_arith)
            requires
                hex_value(s.subrange(0, j - 1)) >= 0,
        ;
    }
}

/// All-decimal text has a value at least that of any prefix.
proof fn lemma_dec_prefix_le(s: Seq<char>, j: int)
    requires
        0 <= j <= s.len(),
        all_dec_digits(s),
    ensures
        0 <= dec_value(s.subrange(0, j)),
        dec_value(s.subrange(0, j)) <= dec_value(s),
    decreases s.len() - j,
{
    if j == s.len() {
        assert(s.subrange(0, j) =~= s);
        lemma_dec_nonneg(s, j);
    } else {
        lemma_dec_prefix_le(s, j + 1);
        lemma_dec_nonneg(s, j);
        let p = s.subrange(0, j);
        let q = s.subrange(0, j + 1);
        assert(q.drop_last() =~= p);
        assert(dec_value(q) == dec_value(p) * 10 + (q.last() as int - '0' as int));
        assert(dec_value(p) * 10 >= dec_value(p)) by (nonlinear_arith)
            requires
                dec_value(p) >= 0,
        ;
    }
}

/// The value of all-decimal text is never negative.
proof fn lemma_dec_nonneg(s: Seq<char>, j: int)
    requires
        0 <= j <= s.len(),
        forall|i: int| 0 <= i < j ==> is_dec_digit(#[trigger] s[i]),
    ensures
        0 <= dec_value(s.subrange(0, j)),
    decreases j,
{
    if j > 0 {
        lemma_dec_nonneg(s, j - 1);
        let p = s.subrange(0, j);
        assert(p.drop_last() =~= s.subrange(0, j - 1));
        assert(dec_value(s.subrange(0, j - 1)) * 10 >= 0) by (nonlinear_arith)
            requires
                dec_value(s.subrange(0, j - 1)) >= 0,
        ;
    }
}

/// The bytes of ASCII text, character by character.
pub open spec fn config_ascii_bytes(s: Seq<char>) -> Seq<u8> {
    Seq::new(s.len(), |i: int| s[i] as u8)
}

/// The index of the z-encoding of an ASCII name in the symbol table.
pub open spec fn spec_encoded_lookup(tab: Seq<Seq<char>>, name: Seq<char>) -> Option<u32> {
    let enc = zencode::spec_encode(config_ascii_bytes(name));
    if exists|i: int| 0 <= i < tab.len() && tab[i] == enc {
        Some((choose|i: int| 0 <= i < tab.len() && tab[i] == enc) as u32)
    } else {
        None
    }
}

/// The text under a key of the top-level table.
pub open spec fn spec_key_text(t: AbsToml, key: Seq<char>) -> Option<Seq<char>> {
    match t {
        AbsToml::Table(e) => match table_first(e, key) {
            Some(v) => match v {
                AbsToml::Text(s) => Some(s),
                _ => None,
            },
            None => None,
        },
        _ => None,
    }
}

/// Whether the text under a key, if there is one, is ASCII.
pub open spec fn key_text_ascii(t: AbsToml, key: Seq<char>) -> bool {
    match spec_key_text(t, key) {
        Some(s) => vstd::utf8::is_ascii_chars(s),
        None => true,
    }
}

/// The architecture symbol a string key resolves to.
pub open spec fn spec_symbol_of(t: AbsToml, key: Seq<char>, tab: Seq<Seq<char>>) -> Option<u32> {
    match spec_key_text(t, key) {
        Some(s) => spec_encoded_lookup(tab, s),
        None => None,
    }
}

/// The number a key of a named subtable holds, as number text.
pub open spec fn spec_table_value(t: AbsToml, table: Seq<char>, key: Seq<char>) -> Option<u64> {
    match t {
        AbsToml::Table(e) => match table_first(e, table) {
            Some(sub) => match sub {
                AbsToml::Table(te) => match table_first(te, key) {
                    Some(v) => match v {
                        AbsToml::Text(s) => spec_parse_u64(s),
                        _ => None,
                    },
                    None => None,
                },
                _ => None,
            },
            None => None,
        },
        _ => None,
    }
}

/// Read an unsigned 64-bit value from `config.<table>.<key>`, written in
/// decimal or prefixed hexadecimal.
pub fn get_table_value(config: &TomlValue, table: &str, key: &str) -> (r: Result<u64, String>)
    ensures
        match r {
            Ok(n) => spec_table_value(config@, table@, key@) == Some(n),
            Err(_) => spec_table_value(config@, table@, key@) is None,
        },
{
    let t = match toml_get(config, table) {
        Some(t) => t,
        None => {
            return Err("missing configuration table".to_owned());
        },
    };
    let v = match toml_get(t, key) {
        Some(v) => v,
        None => {
            return Err("missing configuration key".to_owned());
        },
    };
    let text = match toml_as_str(v) {
        Some(s) => s,
        None => {
            return Err("configuration value must be a string".to_owned());
        },
    };
    match parse_u64_text(text) {
        Some(n) => Ok(n),
        None => Err("could not parse configuration value as a 64-bit unsigned integer".to_owned()),
    }
}

/// Read a tool command: the first word is the command, the rest are its
/// options.
pub fn get_tool_path(config: &TomlValue, tool: &str) -> (r: Result<Tool, String>)
    ensures
        spec_key_text(config@, tool@) is None ==> r is Err,
        r is Ok ==> spec_key_text(config@, tool@) is Some,
        tool_wf(config@, tool@) ==> r is Ok,
{
    let v = match toml_get(config, tool) {
        Some(v) => v,
        None => {
            return Err("configuration tool option must be specified".to_owned());
        },
    };
    let text = match toml_as_str(v) {
        Some(s) => s,
        None => {
            return Err("configuration tool option must be specified".to_owned());
        },
    };
    let words = split_whitespace(text);
    if words.len() == 0 {
        return Err("configuration tool option cannot be empty".to_owned());
    }
    let mut words = words;
    let executable = words.remove(0);
    Ok(Tool { executable, options: words })
}

/// Split text into whitespace-separated words: the result is non-empty
/// exactly when the text holds a non-whitespace character.
#[verifier::loop_isolation(false)]
pub fn split_whitespace(text: &String) -> (r: Vec<String>)
    ensures
        r@.len() > 0 <==> exists|i: int| 0 <= i < text@.len() && !spec_space(text@[i]),
{
    let len = text.as_str().unicode_len();
    let mut words: Vec<String> = Vec::new();
    let mut current = String::new();
    let mut k: usize = 0;
    while k < len
        invariant
            k <= len,
            len == text@.len(),
            (words@.len() > 0 || current@.len() > 0) <==> exists|i: int|
                0 <= i < k && !spec_space(text@[i]),
        decreases len - k,
    {
        let c = text.as_str().get_char(k);
        let cu = c as u32;
        proof {
            assert((' ' as u32) == 32 && ('\t' as u32) == 9 && ('\n' as u32) == 10 && ('\r'
                as u32) == 13);
            assert((cu == 32 || cu == 9 || cu == 10 || cu == 13) == spec_space(text@[k as int]));
        }
        if cu == 32 || cu == 9 || cu == 10 || cu == 13 {
            if current.as_str().unicode_len() > 0 {
                words.push(current);
                current = String::new();
            }
        } else {
            crate::strings::push_char(&mut current, c);
        }
        k += 1;
    }
    if current.as_str().unicode_len() > 0 {
        words.push(current);
    }
    words
}

/// Look an encoded architecture name up in the symbol table.
fn lookup_encoded(symtab: &Symtab, name: &String) -> (r: Option<u32>)
    requires
        symtab.wf(),
    ensures
        vstd::utf8::is_ascii_chars(name@) ==> r == spec_encoded_lookup(symtab@, name@),
{
    let rn = name.as_str();
    let encoded = zencode::encode(rn);
    proof {
        if vstd::utf8::is_ascii_chars(name@) {
            assert(vstd::string::is_ascii(rn));
            vstd::string::is_ascii_spec_bytes(rn);
            assert(rn.spec_bytes() =~= config_ascii_bytes(name@));
        }
    }
    let r = symtab.get(encoded.as_str());
    proof {
        if vstd::utf8::is_ascii_chars(name@) {
            let enc = zencode::spec_encode(config_ascii_bytes(name@));
            match r {
                Some(n) => {
                    assert(symtab@[n as int] == enc);
                    let w = choose|i: int| 0 <= i < symtab@.len() && symtab@[i] == enc;
                    assert(symtab@[w] == symtab@[n as int]);
                    assert(w == n as int);
                },
                None => {},
            }
        }
    }
    r
}

/// Read a string key and resolve it as an architecture name.
fn get_symbol(config: &TomlValue, key: &str, symtab: &Symtab) -> (r: Result<u32, String>)
    requires
        symtab.wf(),
    ensures
        key_text_ascii(config@, key@) ==> match r {
            Ok(n) => spec_symbol_of(config@, key@, symtab@) == Some(n),
            Err(_) => spec_symbol_of(config@, key@, symtab@) is None,
        },
{
    let v = match toml_get(config, key) {
        Some(v) => v,
        None => {
            return Err("configuration key must be specified".to_owned());
        },
    };
    let text = match toml_as_str(v) {
        Some(s) => s,
        None => {
            return Err("configuration key must be specified".to_owned());
        },
    };
    match lookup_encoded(symtab, text) {
        Some(n) => Ok(n),
        None => Err("name does not exist in supplied architecture".to_owned()),
    }
}

/// Read an array of architecture names.
#[verifier::loop_isolation(false)]
fn get_exclusives(config: &TomlValue, key: &str, symtab: &Symtab) -> (r: Result<Vec<u32>, String>)
    requires
        symtab.wf(),
    ensures
        exclusives_wf(config@, key@, symtab@) ==> r is Ok,
        !key_is_array(config@, key@) ==> r is Err,
{
    let v = match toml_get(config, key) {
        Some(v) => v,
        None => {
            return Err("configuration must specify some exclusives".to_owned());
        },
    };
    match v {
        TomlValue::Array(items) => {
            proof {
                crate::toml_model::lemma_tomls_view_len(items@);
                assert forall|i: int|
                    0 <= i < items@.len() implies #[trigger] crate::toml_model::tomls_view(
                    items@,
                )[i] == crate::toml_model::toml_view(items@[i]) by {
                    crate::toml_model::lemma_tomls_view_index(items@, i);
                }
            }
            let ghost iv = crate::toml_model::tomls_view(items@);
            let mut out: Vec<u32> = Vec::new();
            let mut k: usize = 0;
            while k < items.len()
                invariant
                    symtab.wf(),
                    k <= items@.len(),
                decreases items@.len() - k,
            {
                proof {
                    if exclusives_wf(config@, key@, symtab@) {
                        assert(all_resolving_texts(iv, symtab@));
                        assert(iv[k as int] matches AbsToml::Text(s)
                            && vstd::utf8::is_ascii_chars(s) && spec_encoded_lookup(
                            symtab@,
                            s,
                        ) is Some);
                    }
                }
                let text = match toml_as_str(&items[k]) {
                    Some(s) => s,
                    None => {
                        return Err("each exclusive must be a string value".to_owned());
                    },
                };
                match lookup_encoded(symtab, text) {
                    Some(n) => {
                        out.push(n);
                    },
                    None => {
                        return Err(
                            "exclusive kind does not exist in supplied architecture".to_owned(),
                        );
                    },
                }
                k += 1;
            }
            Ok(out)
        },
        _ => Err("configuration must specify some exclusives".to_owned()),
    }
}

/// Insert an event kind into the named category set.
fn add_event_kind(sets: &mut Vec<(String, Vec<Kind<u32>>)>, set_name: &String, kind: Kind<u32>) {
    let mut k: usize = 0;
    let n = sets.len();
    while k < n
        invariant
            k <= n,
            n <= sets@.len(),
        decreases n - k,
    {
        if sets[k].0 == *set_name {
            let mut entry = sets.remove(k);
            entry.1.push(kind);
            sets.insert(k, entry);
            return ;
        }
        k += 1;
    }
    let mut kinds: Vec<Kind<u32>> = Vec::new();
    kinds.push(kind);
    sets.push((set_name.clone(), kinds));
}

/// The tag for which event table is being read.
enum EventTable {
    Reads,
    Writes,
    CacheOps,
}

/// Read one event table, classing each kind into its category sets.
#[verifier::loop_isolation(false)]
#[verifier::rlimit(60)]
fn get_event_table(
    config: &TomlValue,
    key: &str,
    which: EventTable,
    symtab: &Symtab,
    sets: &mut Vec<(String, Vec<Kind<u32>>)>,
) -> (r: Result<(), String>)
    requires
        symtab.wf(),
    ensures
        event_table_wf(config@, key@, symtab@) ==> r is Ok,
        !key_is_table(config@, key@) ==> r is Err,
{
    let table = match toml_get(config, key) {
        Some(t) => t,
        None => {
            return Err("config file has no event table".to_owned());
        },
    };
    match table {
        TomlValue::Table(entries) => {
            proof {
                crate::toml_model::lemma_toml_table_view_len(entries@);
                assert forall|i: int|
                    0 <= i < entries@.len() implies #[trigger] crate::toml_model::toml_table_view(
                    entries@,
                )[i] == (entries@[i].0@, crate::toml_model::toml_view(entries@[i].1)) by {
                    crate::toml_model::lemma_toml_table_view_index(entries@, i);
                }
            }
            let ghost ev = crate::toml_model::toml_table_view(entries@);
            let mut k: usize = 0;
            while k < entries.len()
                invariant
                    symtab.wf(),
                    k <= entries@.len(),
                decreases entries@.len() - k,
            {
                proof {
                    if event_table_wf(config@, key@, symtab@) {
                        assert(config@ is Table);
                        let e0 = config@->Table_0;
                        assert(table_first(e0, key@) == Some(AbsToml::Table(ev)));
                        assert(match table_first(e0, key@) {
                            Some(v) => match v {
                                AbsToml::Table(entries2) => forall|i: int|
                                    0 <= i < entries2.len() ==> event_entry_wf(
                                        (#[trigger] entries2[i]).0,
                                        entries2[i].1,
                                        symtab@,
                                    ),
                                _ => false,
                            },
                            None => false,
                        });
                        assert(forall|i: int|
                            0 <= i < ev.len() ==> event_entry_wf(
                                (#[trigger] ev[i]).0,
                                ev[i].1,
                                symtab@,
                            ));
                        assert(0 <= k < ev.len());
                        assert(event_entry_wf(ev[k as int].0, ev[k as int].1, symtab@));
                    }
                }
                let kind_id = match lookup_encoded(symtab, &entries[k].0) {
                    Some(n) => n,
                    None => {
                        return Err("could not find event kind in architecture".to_owned());
                    },
                };
                match &entries[k].1 {
                    TomlValue::Text(set_name) => {
                        let kind = match which {
                            EventTable::Reads => Kind::Read(kind_id),
                            EventTable::Writes => Kind::Write(kind_id),
                            EventTable::CacheOps => Kind::CacheOp(kind_id),
                        };
                        add_event_kind(sets, set_name, kind);
                    },
                    TomlValue::Array(names) => {
                        proof {
                            crate::toml_model::lemma_tomls_view_len(names@);
                        }
                        let ghost nv = crate::toml_model::tomls_view(names@);
                        let mut j: usize = 0;
                        while j < names.len()
                            invariant
                                j <= names@.len(),
                            decreases names@.len() - j,
                        {
                            proof {
                                crate::toml_model::lemma_tomls_view_index(names@, j as int);
                                if event_table_wf(config@, key@, symtab@) {
                                    assert(k < entries@.len());
                                    assert(ev[k as int] == (
                                        entries@[k as int].0@,
                                        crate::toml_model::toml_view(entries@[k as int].1),
                                    ));
                                    assert(event_entry_wf(ev[k as int].0, ev[k as int].1, symtab@));
                                    assert(ev[k as int].1 == AbsToml::Array(nv));
                                    assert(nv[j as int] is Text);
                                }
                            }
                            let set_name = match toml_as_str(&names[j]) {
                                Some(s) => s,
                                None => {
                                    return Err(
                                        "each event kind must specify at least one category set".to_owned(),
                                    );
                                },
                            };
                            let kind = match which {
                                EventTable::Reads => Kind::Read(kind_id),
                                EventTable::Writes => Kind::Write(kind_id),
                                EventTable::CacheOps => Kind::CacheOp(kind_id),
                            };
                            add_event_kind(sets, set_name, kind);
                            j += 1;
                        }
                    },
                    _ => {
                        return Err(
                            "each event kind must specify at least one category set".to_owned(),
                        );
                    },
                }
                k += 1;
            }
            Ok(())
        },
        _ => Err("config file has no event table".to_owned()),
    }
}

/// Read the barrier table: barrier kinds with their memory-model names.
#[verifier::loop_isolation(false)]
fn get_barriers(config: &TomlValue, symtab: &Symtab) -> (r: Result<Vec<(u32, String)>, String>)
    requires
        symtab.wf(),
    ensures
        barriers_wf(config@, symtab@) ==> r is Ok,
{
    let table = match toml_get(config, "barriers") {
        Some(t) => t,
        None => {
            return Ok(Vec::new());
        },
    };
    match table {
        TomlValue::Table(entries) => {
            proof {
                crate::toml_model::lemma_toml_table_view_len(entries@);
                assert forall|i: int|
                    0 <= i < entries@.len() implies #[trigger] crate::toml_model::toml_table_view(
                    entries@,
                )[i] == (entries@[i].0@, crate::toml_model::toml_view(entries@[i].1)) by {
                    crate::toml_model::lemma_toml_table_view_index(entries@, i);
                }
            }
            let ghost bv = crate::toml_model::toml_table_view(entries@);
            let mut out: Vec<(u32, String)> = Vec::new();
            let mut k: usize = 0;
            while k < entries.len()
                invariant
                    symtab.wf(),
                    k <= entries@.len(),
                decreases entries@.len() - k,
            {
                proof {
                    if barriers_wf(config@, symtab@) {
                        assert(config@ is Table);
                        let e0 = config@->Table_0;
                        assert(table_first(e0, "barriers"@) == Some(AbsToml::Table(bv)));
                        assert(vstd::utf8::is_ascii_chars(bv[k as int].0) && spec_encoded_lookup(
                            symtab@,
                            bv[k as int].0,
                        ) is Some && bv[k as int].1 is Text);
                    }
                }
                let bk = match lookup_encoded(symtab, &entries[k].0) {
                    Some(n) => n,
                    None => {
                        return Err(
                            "barrier kind could not be found in the architecture".to_owned(),
                        );
                    },
                };
                let name = match toml_as_str(&entries[k].1) {
                    Some(s) => s.clone(),
                    None => {
                        return Err("barrier name must be a string".to_owned());
                    },
                };
                out.push((bk, name));
                k += 1;
            }
            Ok(out)
        },
        _ => Err("the barriers key must define a table of kind-name pairs".to_owned()),
    }
}

/// Read a register value written in the configuration: a boolean, an
/// integer, or a string numeral giving a 64-bit bit-vector value.
pub fn reset_to_toml_value(value: &TomlValue) -> (r: Result<Val, String>)
    ensures
        reset_value_wf(value@) ==> r is Ok,
        match value@ {
            AbsToml::Boolean(b) => r matches Ok(v) && v@ == crate::value::AbsVal::Bool(b),
            AbsToml::Integer(i) => r matches Ok(v) && v@ == crate::value::AbsVal::I128(i as i128),
            AbsToml::Text(s) => match spec_parse_u64(s) {
                Some(n) => r matches Ok(v) && (v@ matches crate::value::AbsVal::Bits(c) && c.width()
                    == 64 && c.value() == n),
                None => r is Err,
            },
            _ => r is Err,
        },
{
    match value {
        TomlValue::Boolean(b) => Ok(Val::Bool(*b)),
        TomlValue::Integer(i) => Ok(Val::I128(*i as i128)),
        TomlValue::Text(s) => match parse_u64_text(s) {
            Some(n) => Ok(Val::Bits(crate::bitvector::Sbits::from_u64(n))),
            None => Err("parse error when reading register value from configuration".to_owned()),
        },
        _ => Err("could not parse configuration value as register value".to_owned()),
    }
}

/// Read a table of register-to-value pairs.
#[verifier::loop_isolation(false)]
pub fn toml_reset_registers(table: &TomlValue, symtab: &Symtab) -> (r: Result<
    Vec<(u32, Val)>,
    String,
>)
    requires
        symtab.wf(),
    ensures
        reset_table_wf(table@, symtab@) ==> r is Ok,
{
    match table {
        TomlValue::Table(entries) => {
            proof {
                crate::toml_model::lemma_toml_table_view_len(entries@);
                assert forall|i: int|
                    0 <= i < entries@.len() implies #[trigger] crate::toml_model::toml_table_view(
                    entries@,
                )[i] == (entries@[i].0@, crate::toml_model::toml_view(entries@[i].1)) by {
                    crate::toml_model::lemma_toml_table_view_index(entries@, i);
                }
            }
            let ghost rv = crate::toml_model::toml_table_view(entries@);
            let mut out: Vec<(u32, Val)> = Vec::new();
            let mut k: usize = 0;
            while k < entries.len()
                invariant
                    symtab.wf(),
                    k <= entries@.len(),
                decreases entries@.len() - k,
            {
                proof {
                    if reset_table_wf(table@, symtab@) {
                        assert(vstd::utf8::is_ascii_chars(rv[k as int].0) && spec_encoded_lookup(
                            symtab@,
                            rv[k as int].0,
                        ) is Some && reset_value_wf(rv[k as int].1));
                    }
                }
                let reg = match lookup_encoded(symtab, &entries[k].0) {
                    Some(n) => n,
                    None => {
                        return Err(
                            "could not find register when parsing register reset information".to_owned(),
                        );
                    },
                };
                let value = match reset_to_toml_value(&entries[k].1) {
                    Ok(v) => v,
                    Err(e) => {
                        return Err(e);
                    },
                };
                out.push((reg, value));
                k += 1;
            }
            Ok(out)
        },
        _ => Err("register values should be a table of register and value pairs".to_owned()),
    }
}

/// Read a sub-table of the `registers` table, when it exists.
fn get_registers_subtable<'a>(config: &'a TomlValue, key: &str) -> (r: Option<&'a TomlValue>)
    ensures
        match r {
            Some(v) => registers_sub(config@, key@) == Some(v@),
            None => registers_sub(config@, key@) is None,
        },
{
    match toml_get(config, "registers") {
        Some(regs) => toml_get(regs, key),
        None => None,
    }
}

/// Read the register rename table: synonyms to interned register names.
#[verifier::loop_isolation(false)]
fn get_register_renames(config: &TomlValue, symtab: &Symtab) -> (r: Result<
    Vec<(String, u32)>,
    String,
>)
    requires
        symtab.wf(),
    ensures
        renames_wf(config@, symtab@) ==> r is Ok,
{
    let table = match get_registers_subtable(config, "renames") {
        Some(t) => t,
        None => {
            return Ok(Vec::new());
        },
    };
    match table {
        TomlValue::Table(entries) => {
            proof {
                crate::toml_model::lemma_toml_table_view_len(entries@);
                assert forall|i: int|
                    0 <= i < entries@.len() implies #[trigger] crate::toml_model::toml_table_view(
                    entries@,
                )[i] == (entries@[i].0@, crate::toml_model::toml_view(entries@[i].1)) by {
                    crate::toml_model::lemma_toml_table_view_index(entries@, i);
                }
            }
            let ghost rv = crate::toml_model::toml_table_view(entries@);
            let mut out: Vec<(String, u32)> = Vec::new();
            let mut k: usize = 0;
            while k < entries.len()
                invariant
                    symtab.wf(),
                    k <= entries@.len(),
                decreases entries@.len() - k,
            {
                proof {
                    if renames_wf(config@, symtab@) {
                        assert(rv[k as int].1 matches AbsToml::Text(s)
                            && vstd::utf8::is_ascii_chars(s) && spec_encoded_lookup(
                            symtab@,
                            s,
                        ) is Some);
                    }
                }
                let reg_name = match toml_as_str(&entries[k].1) {
                    Some(s) => s,
                    None => {
                        return Err(
                            "could not find register when parsing register renames".to_owned(),
                        );
                    },
                };
                let reg = match lookup_encoded(symtab, reg_name) {
                    Some(n) => n,
                    None => {
                        return Err(
                            "could not find register when parsing register renames".to_owned(),
                        );
                    },
                };
                let synonym = entries[k].0.clone();
                out.push((synonym, reg));
                k += 1;
            }
            Ok(out)
        },
        _ => Err("register renames should be a table of name and register pairs".to_owned()),
    }
}

/// Read the ignored-register list.
#[verifier::loop_isolation(false)]
fn get_ignored_registers(config: &TomlValue, symtab: &Symtab) -> (r: Result<Vec<u32>, String>)
    requires
        symtab.wf(),
    ensures
        ignored_wf(config@, symtab@) ==> r is Ok,
{
    let list = match get_registers_subtable(config, "ignore") {
        Some(t) => t,
        None => {
            return Ok(Vec::new());
        },
    };
    match list {
        TomlValue::Array(items) => {
            proof {
                crate::toml_model::lemma_tomls_view_len(items@);
                assert forall|i: int|
                    0 <= i < items@.len() implies #[trigger] crate::toml_model::tomls_view(
                    items@,
                )[i] == crate::toml_model::toml_view(items@[i]) by {
                    crate::toml_model::lemma_tomls_view_index(items@, i);
                }
            }
            let ghost iv = crate::toml_model::tomls_view(items@);
            let mut out: Vec<u32> = Vec::new();
            let mut k: usize = 0;
            while k < items.len()
                invariant
                    symtab.wf(),
                    k <= items@.len(),
                decreases items@.len() - k,
            {
                proof {
                    if ignored_wf(config@, symtab@) {
                        assert(all_resolving_texts(iv, symtab@));
                        assert(iv[k as int] matches AbsToml::Text(s)
                            && vstd::utf8::is_ascii_chars(s) && spec_encoded_lookup(
                            symtab@,
                            s,
                        ) is Some);
                    }
                }
                let name = match toml_as_str(&items[k]) {
                    Some(s) => s,
                    None => {
                        return Err(
                            "could not find register when parsing ignored registers".to_owned(),
                        );
                    },
                };
                match lookup_encoded(symtab, name) {
                    Some(n) => {
                        out.push(n);
                    },
                    None => {
                        return Err(
                            "could not find register when parsing ignored registers".to_owned(),
                        );
                    },
                }
                k += 1;
            }
            Ok(out)
        },
        _ => Err("ignored registers should be a list of register names".to_owned()),
    }
}




/// Whether a key holds an array value.
pub open spec fn key_is_array(t: AbsToml, key: Seq<char>) -> bool {
    match t {
        AbsToml::Table(e) => match table_first(e, key) {
            Some(v) => v is Array,
            None => false,
        },
        _ => false,
    }
}

/// Whether a key holds a table value.
pub open spec fn key_is_table(t: AbsToml, key: Seq<char>) -> bool {
    match t {
        AbsToml::Table(e) => match table_first(e, key) {
            Some(v) => v is Table,
            None => false,
        },
        _ => false,
    }
}

/// Whether every element of an array is resolving ASCII name text.
pub open spec fn all_resolving_texts(items: Seq<AbsToml>, tab: Seq<Seq<char>>) -> bool {
    forall|i: int|
        0 <= i < items.len() ==> ((#[trigger] items[i]) matches AbsToml::Text(s)
            && vstd::utf8::is_ascii_chars(s) && spec_encoded_lookup(tab, s) is Some)
}

/// Whether a key holds an array of resolving ASCII architecture names.
pub open spec fn exclusives_wf(t: AbsToml, key: Seq<char>, tab: Seq<Seq<char>>) -> bool {
    match t {
        AbsToml::Table(e) => match table_first(e, key) {
            Some(v) => match v {
                AbsToml::Array(items) => all_resolving_texts(items, tab),
                _ => false,
            },
            None => false,
        },
        _ => false,
    }
}

/// Whether one event-table entry is well-formed: a resolving ASCII kind
/// name, and a category set name or an array of them.
pub open spec fn event_entry_wf(key: Seq<char>, v: AbsToml, tab: Seq<Seq<char>>) -> bool {
    &&& vstd::utf8::is_ascii_chars(key)
    &&& spec_encoded_lookup(tab, key) is Some
    &&& (match v {
        AbsToml::Text(_) => true,
        AbsToml::Array(ns) => forall|j: int| 0 <= j < ns.len() ==> (#[trigger] ns[j]) is Text,
        _ => false,
    })
}

/// Whether a key holds a well-formed event table.
pub open spec fn event_table_wf(t: AbsToml, key: Seq<char>, tab: Seq<Seq<char>>) -> bool {
    match t {
        AbsToml::Table(e) => match table_first(e, key) {
            Some(v) => match v {
                AbsToml::Table(entries) => forall|i: int|
                    0 <= i < entries.len() ==> event_entry_wf(
                        (#[trigger] entries[i]).0,
                        entries[i].1,
                        tab,
                    ),
                _ => false,
            },
            None => false,
        },
        _ => false,
    }
}

/// Whether a character is configuration whitespace.
pub open spec fn spec_space(c: char) -> bool {
    c == ' ' || c == '\t' || c == '\n' || c == '\r'
}

/// Whether a tool key holds command text with at least one word.
pub open spec fn tool_wf(t: AbsToml, key: Seq<char>) -> bool {
    match spec_key_text(t, key) {
        Some(s) => exists|i: int| 0 <= i < s.len() && !spec_space(#[trigger] s[i]),
        None => false,
    }
}

/// Whether the barriers table, if there is one, is well-formed: each
/// barrier kind a resolving ASCII name, each value its name text.
pub open spec fn barriers_wf(t: AbsToml, tab: Seq<Seq<char>>) -> bool {
    match t {
        AbsToml::Table(e) => match table_first(e, "barriers"@) {
            Some(v) => match v {
                AbsToml::Table(entries) => forall|i: int|
                    0 <= i < entries.len() ==> {
                        &&& vstd::utf8::is_ascii_chars((#[trigger] entries[i]).0)
                        &&& spec_encoded_lookup(tab, entries[i].0) is Some
                        &&& entries[i].1 is Text
                    },
                _ => false,
            },
            None => true,
        },
        _ => false,
    }
}

/// The value under a key of the `registers` table, where both are tables.
pub open spec fn registers_sub(t: AbsToml, key: Seq<char>) -> Option<AbsToml> {
    match t {
        AbsToml::Table(e) => match table_first(e, "registers"@) {
            Some(v) => match v {
                AbsToml::Table(re) => table_first(re, key),
                _ => None,
            },
            None => None,
        },
        _ => None,
    }
}

/// Whether a value can stand as a register value: a boolean, an integer,
/// or number text.
pub open spec fn reset_value_wf(v: AbsToml) -> bool {
    match v {
        AbsToml::Boolean(_) => true,
        AbsToml::Integer(_) => true,
        AbsToml::Text(s) => spec_parse_u64(s) is Some,
        _ => false,
    }
}

/// Whether a table of register-to-value pairs is well-formed.
pub open spec fn reset_table_wf(v: AbsToml, tab: Seq<Seq<char>>) -> bool {
    match v {
        AbsToml::Table(entries) => forall|i: int|
            0 <= i < entries.len() ==> {
                &&& vstd::utf8::is_ascii_chars((#[trigger] entries[i]).0)
                &&& spec_encoded_lookup(tab, entries[i].0) is Some
                &&& reset_value_wf(entries[i].1)
            },
        _ => false,
    }
}

/// Whether the `registers.defaults` or `registers.reset` subtable, if
/// present, is well-formed.
pub open spec fn registers_values_wf(t: AbsToml, key: Seq<char>, tab: Seq<Seq<char>>) -> bool {
    match registers_sub(t, key) {
        Some(v) => reset_table_wf(v, tab),
        None => true,
    }
}

/// Whether the `registers.renames` subtable, if present, is a table whose
/// every value is resolving ASCII register text.
pub open spec fn renames_wf(t: AbsToml, tab: Seq<Seq<char>>) -> bool {
    match registers_sub(t, "renames"@) {
        Some(v) => match v {
            AbsToml::Table(entries) => forall|i: int|
                0 <= i < entries.len() ==> ((#[trigger] entries[i]).1 matches AbsToml::Text(s)
                    && vstd::utf8::is_ascii_chars(s) && spec_encoded_lookup(tab, s) is Some),
            _ => false,
        },
        None => true,
    }
}

/// Whether the `registers.ignore` list, if present, is an array of
/// resolving ASCII register names.
pub open spec fn ignored_wf(t: AbsToml, tab: Seq<Seq<char>>) -> bool {
    match registers_sub(t, "ignore"@) {
        Some(v) => match v {
            AbsToml::Array(items) => all_resolving_texts(items, tab),
            _ => false,
        },
        None => true,
    }
}

/// Whether a declared configuration is well-formed: every required key is
/// present with the shape the reader asks, every architecture name ASCII
/// and resolving, every number parseable.
pub open spec fn config_wf(t: AbsToml, tab: Seq<Seq<char>>) -> bool {
    &&& key_text_ascii(t, "pc"@) && spec_symbol_of(t, "pc"@, tab) is Some
    &&& key_text_ascii(t, "ifetch"@) && spec_symbol_of(t, "ifetch"@, tab) is Some
    &&& exclusives_wf(t, "read_exclusives"@, tab)
    &&& exclusives_wf(t, "write_exclusives"@, tab)
    &&& event_table_wf(t, "reads"@, tab)
    &&& event_table_wf(t, "writes"@, tab)
    &&& event_table_wf(t, "cache_ops"@, tab)
    &&& tool_wf(t, "assembler"@)
    &&& tool_wf(t, "objdump"@)
    &&& tool_wf(t, "linker"@)
    &&& barriers_wf(t, tab)
    &&& spec_table_value(t, "mmu"@, "page_table_base"@) is Some
    &&& spec_table_value(t, "mmu"@, "page_size"@) is Some
    &&& spec_table_value(t, "mmu"@, "s2_page_table_base"@) is Some
    &&& spec_table_value(t, "mmu"@, "s2_page_size"@) is Some
    &&& spec_table_value(t, "threads"@, "base"@) is Some
    &&& spec_table_value(t, "threads"@, "top"@) is Some
    &&& spec_table_value(t, "threads"@, "stride"@) is Some
    &&& spec_table_value(t, "symbolic_addrs"@, "base"@) is Some
    &&& spec_table_value(t, "symbolic_addrs"@, "stride"@) is Some
    &&& registers_values_wf(t, "defaults"@, tab)
    &&& registers_values_wf(t, "reset"@, tab)
    &&& renames_wf(t, tab)
    &&& ignored_wf(t, tab)
}

/// What a parsed configuration holds of the declaration it was read from:
/// each numeric key of the `mmu`, `threads` and `symbolic_addrs` tables;
/// the `pc` and `ifetch` symbols (for ASCII names); and the presence of
/// the three tool commands. A missing or unparseable numeric key or
/// symbol refuses the whole configuration.
pub open spec fn config_post(t: AbsToml, tab: Seq<Seq<char>>, r: Result<ISAConfig, String>) -> bool {
    &&& (spec_table_value(t, "mmu"@, "page_table_base"@) is None ==> r is Err)
    &&& (spec_table_value(t, "mmu"@, "page_size"@) is None ==> r is Err)
    &&& (spec_table_value(t, "mmu"@, "s2_page_table_base"@) is None ==> r is Err)
    &&& (spec_table_value(t, "mmu"@, "s2_page_size"@) is None ==> r is Err)
    &&& (spec_table_value(t, "threads"@, "base"@) is None ==> r is Err)
    &&& (spec_table_value(t, "threads"@, "top"@) is None ==> r is Err)
    &&& (spec_table_value(t, "threads"@, "stride"@) is None ==> r is Err)
    &&& (spec_table_value(t, "symbolic_addrs"@, "base"@) is None ==> r is Err)
    &&& (spec_table_value(t, "symbolic_addrs"@, "stride"@) is None ==> r is Err)
    &&& (!key_is_array(t, "read_exclusives"@) ==> r is Err)
    &&& (!key_is_array(t, "write_exclusives"@) ==> r is Err)
    &&& (!key_is_table(t, "reads"@) ==> r is Err)
    &&& (!key_is_table(t, "writes"@) ==> r is Err)
    &&& (!key_is_table(t, "cache_ops"@) ==> r is Err)
    &&& ((key_text_ascii(t, "pc"@) && spec_symbol_of(t, "pc"@, tab) is None) ==> r is Err)
    &&& ((key_text_ascii(t, "ifetch"@) && spec_symbol_of(t, "ifetch"@, tab) is None) ==> r
        is Err)
    &&& (spec_key_text(t, "assembler"@) is None ==> r is Err)
    &&& (spec_key_text(t, "objdump"@) is None ==> r is Err)
    &&& (spec_key_text(t, "linker"@) is None ==> r is Err)
    &&& (config_wf(t, tab) ==> r is Ok)
    &&& (r matches Ok(cfg) ==> {
        &&& spec_table_value(t, "mmu"@, "page_table_base"@) == Some(cfg.page_table_base)
        &&& spec_table_value(t, "mmu"@, "page_size"@) == Some(cfg.page_size)
        &&& spec_table_value(t, "mmu"@, "s2_page_table_base"@) == Some(cfg.s2_page_table_base)
        &&& spec_table_value(t, "mmu"@, "s2_page_size"@) == Some(cfg.s2_page_size)
        &&& spec_table_value(t, "threads"@, "base"@) == Some(cfg.thread_base)
        &&& spec_table_value(t, "threads"@, "top"@) == Some(cfg.thread_top)
        &&& spec_table_value(t, "threads"@, "stride"@) == Some(cfg.thread_stride)
        &&& spec_table_value(t, "symbolic_addrs"@, "base"@) == Some(cfg.symbolic_addr_base)
        &&& spec_table_value(t, "symbolic_addrs"@, "stride"@) == Some(cfg.symbolic_addr_stride)
        &&& (key_text_ascii(t, "pc"@) ==> spec_symbol_of(t, "pc"@, tab) == Some(cfg.pc))
        &&& (key_text_ascii(t, "ifetch"@) ==> spec_symbol_of(t, "ifetch"@, tab) == Some(
            cfg.ifetch_read_kind,
        ))
        &&& spec_key_text(t, "assembler"@) is Some
        &&& spec_key_text(t, "objdump"@) is Some
        &&& spec_key_text(t, "linker"@) is Some
    })
}

/// What parsing configuration text yields: nothing when the text does not
/// parse, else a configuration that matches the declaration.
pub open spec fn parse_post(
    text: Seq<char>,
    tab: Seq<Seq<char>>,
    r: Result<ISAConfig, String>,
) -> bool {
    &&& (toml_of(text) is None ==> r is Err)
    &&& (toml_of(text) matches Some(t) ==> config_post(t, tab, r))
}

/// The built-in default configuration text.
pub open spec fn default_config_text() -> Seq<char> {
    "pc = \"_PC\"\nifetch = \"Read_ifetch\"\nread_exclusives = [\"Read_exclusive\"]\nwrite_exclusives = [\"Write_exclusive\"]\nassembler = \"aarch64-linux-gnu-as -march=armv8.1-a\"\nobjdump = \"aarch64-linux-gnu-objdump\"\nlinker = \"aarch64-linux-gnu-ld\"\n\n[reads]\nRead_plain = \"R\"\nRead_exclusive = [\"R\", \"X\"]\n\n[writes]\nWrite_plain = \"W\"\nWrite_exclusive = [\"W\", \"X\"]\n\n[cache_ops]\nDC = \"DC\"\n\n[barriers]\nBarrier_DMB = \"dmb\"\nBarrier_DSB = \"dsb\"\nBarrier_ISB = \"isb\"\n\n[mmu]\npage_table_base = \"0x300000\"\npage_size = \"4096\"\ns2_page_table_base = \"0x380000\"\ns2_page_size = \"4096\"\n\n[threads]\nbase = \"0x400000\"\ntop = \"0x500000\"\nstride = \"0x10000\"\n\n[symbolic_addrs]\nbase = \"0x100000\"\nstride = \"0x10\"\n"@
}

impl ISAConfig {
    /// Parse configuration text: every required key must be present and
    /// every architecture name must resolve in the symbol table.
    pub fn parse(contents: &str, symtab: &Symtab) -> (r: Result<ISAConfig, String>)
        requires
            symtab.wf(),
        ensures
            parse_post(contents@, symtab@, r),
    {
        let config = match parse_toml(contents) {
            Some(v) => v,
            None => {
                return Err("error when parsing configuration".to_owned());
            },
        };
        let pc = match get_symbol(&config, "pc", symtab) {
            Ok(n) => n,
            Err(e) => {
                return Err(e);
            },
        };
        let ifetch_read_kind = match get_symbol(&config, "ifetch", symtab) {
            Ok(n) => n,
            Err(e) => {
                return Err(e);
            },
        };
        let read_exclusives = match get_exclusives(&config, "read_exclusives", symtab) {
            Ok(v) => v,
            Err(e) => {
                return Err(e);
            },
        };
        let write_exclusives = match get_exclusives(&config, "write_exclusives", symtab) {
            Ok(v) => v,
            Err(e) => {
                return Err(e);
            },
        };
        let mut event_sets: Vec<(String, Vec<Kind<u32>>)> = Vec::new();
        match get_event_table(&config, "reads", EventTable::Reads, symtab, &mut event_sets) {
            Ok(_) => {},
            Err(e) => {
                return Err(e);
            },
        }
        match get_event_table(&config, "writes", EventTable::Writes, symtab, &mut event_sets) {
            Ok(_) => {},
            Err(e) => {
                return Err(e);
            },
        }
        match get_event_table(
            &config,
            "cache_ops",
            EventTable::CacheOps,
            symtab,
            &mut event_sets,
        ) {
            Ok(_) => {},
            Err(e) => {
                return Err(e);
            },
        }
        let assembler = match get_tool_path(&config, "assembler") {
            Ok(t) => t,
            Err(e) => {
                return Err(e);
            },
        };
        let objdump = match get_tool_path(&config, "objdump") {
            Ok(t) => t,
            Err(e) => {
                return Err(e);
            },
        };
        let linker = match get_tool_path(&config, "linker") {
            Ok(t) => t,
            Err(e) => {
                return Err(e);
            },
        };
        let barriers = match get_barriers(&config, symtab) {
            Ok(v) => v,
            Err(e) => {
                return Err(e);
            },
        };
        let page_table_base = match get_table_value(&config, "mmu", "page_table_base") {
            Ok(n) => n,
            Err(e) => {
                return Err(e);
            },
        };
        let page_size = match get_table_value(&config, "mmu", "page_size") {
            Ok(n) => n,
            Err(e) => {
                return Err(e);
            },
        };
        let s2_page_table_base = match get_table_value(&config, "mmu", "s2_page_table_base") {
            Ok(n) => n,
            Err(e) => {
                return Err(e);
            },
        };
        let s2_page_size = match get_table_value(&config, "mmu", "s2_page_size") {
            Ok(n) => n,
            Err(e) => {
                return Err(e);
            },
        };
        let thread_base = match get_table_value(&config, "threads", "base") {
            Ok(n) => n,
            Err(e) => {
                return Err(e);
            },
        };
        let thread_top = match get_table_value(&config, "threads", "top") {
            Ok(n) => n,
            Err(e) => {
                return Err(e);
            },
        };
        let thread_stride = match get_table_value(&config, "threads", "stride") {
            Ok(n) => n,
            Err(e) => {
                return Err(e);
            },
        };
        let symbolic_addr_base = match get_table_value(&config, "symbolic_addrs", "base") {
            Ok(n) => n,
            Err(e) => {
                return Err(e);
            },
        };
        let symbolic_addr_stride = match get_table_value(&config, "symbolic_addrs", "stride") {
            Ok(n) => n,
            Err(e) => {
                return Err(e);
            },
        };
        let default_registers = match get_registers_subtable(&config, "defaults") {
            Some(t) => match toml_reset_registers(t, symtab) {
                Ok(v) => v,
                Err(e) => {
                    return Err(e);
                },
            },
            None => Vec::new(),
        };
        let reset_registers = match get_registers_subtable(&config, "reset") {
            Some(t) => match toml_reset_registers(t, symtab) {
                Ok(v) => v,
                Err(e) => {
                    return Err(e);
                },
            },
            None => Vec::new(),
        };
        let register_renames = match get_register_renames(&config, symtab) {
            Ok(v) => v,
            Err(e) => {
                return Err(e);
            },
        };
        let ignored_registers = match get_ignored_registers(&config, symtab) {
            Ok(v) => v,
            Err(e) => {
                return Err(e);
            },
        };
        Ok(
            ISAConfig {
                pc,
                ifetch_read_kind,
                read_exclusives,
                write_exclusives,
                event_sets,
                assembler,
                objdump,
                linker,
                barriers,
                page_table_base,
                page_size,
                s2_page_table_base,
                s2_page_size,
                thread_base,
                thread_top,
                thread_stride,
                symbolic_addr_base,
                symbolic_addr_stride,
                default_registers,
                reset_registers,
                register_renames,
                ignored_registers,
            },
        )
    }

    /// The built-in default configuration, used when none is given: an
    /// aarch64-like layout with standard GNU tool names.
    pub fn new(symtab: &Symtab) -> (r: Result<ISAConfig, String>)
        requires
            symtab.wf(),
        ensures
            parse_post(default_config_text(), symtab@, r),
    {
        let default_config = "pc = \"_PC\"\nifetch = \"Read_ifetch\"\nread_exclusives = [\"Read_exclusive\"]\nwrite_exclusives = [\"Write_exclusive\"]\nassembler = \"aarch64-linux-gnu-as -march=armv8.1-a\"\nobjdump = \"aarch64-linux-gnu-objdump\"\nlinker = \"aarch64-linux-gnu-ld\"\n\n[reads]\nRead_plain = \"R\"\nRead_exclusive = [\"R\", \"X\"]\n\n[writes]\nWrite_plain = \"W\"\nWrite_exclusive = [\"W\", \"X\"]\n\n[cache_ops]\nDC = \"DC\"\n\n[barriers]\nBarrier_DMB = \"dmb\"\nBarrier_DSB = \"dsb\"\nBarrier_ISB = \"isb\"\n\n[mmu]\npage_table_base = \"0x300000\"\npage_size = \"4096\"\ns2_page_table_base = \"0x380000\"\ns2_page_size = \"4096\"\n\n[threads]\nbase = \"0x400000\"\ntop = \"0x500000\"\nstride = \"0x10000\"\n\n[symbolic_addrs]\nbase = \"0x100000\"\nstride = \"0x10\"\n";
        let r = ISAConfig::parse(default_config, symtab);
        proof {
            assert(default_config@ == default_config_text());
        }
        r
    }
}

} // verus!
