//! Decoding of compiled JVM class files into a structured symbol model.
//!
//! The binary container (header, constant pool, method table) is read by
//! the `jclassfile` crate behind trusted wrappers; everything built on top
//! of those reads — resolving the class name, resolving method names and
//! descriptors, and the descriptor grammar itself — is verified here.

use vstd::prelude::*;

use crate::text::{chars_to_string, str_to_chars};

verus! {

/// A Java value type as it appears in a method descriptor.
#[derive(Debug, PartialEq, Eq)]
pub enum JavaType {
    Void,
    Char,
    Float,
    Double,
    Byte,
    Short,
    Int,
    Long,
    Boolean,
    Class(String),
    Array(Box<JavaType>),
}

/// The mathematical shape of a [`JavaType`]: the same variants with the
/// class name as a character sequence.
pub enum JavaTypeModel {
    Void,
    Char,
    Float,
    Double,
    Byte,
    Short,
    Int,
    Long,
    Boolean,
    Class(Seq<char>),
    Array(Box<JavaTypeModel>),
}

/// The model a [`JavaType`] value denotes.
pub open spec fn jt_view(t: JavaType) -> JavaTypeModel
    decreases t,
{
    match t {
        JavaType::Void => JavaTypeModel::Void,
        JavaType::Char => JavaTypeModel::Char,
        JavaType::Float => JavaTypeModel::Float,
        JavaType::Double => JavaTypeModel::Double,
        JavaType::Byte => JavaTypeModel::Byte,
        JavaType::Short => JavaTypeModel::Short,
        JavaType::Int => JavaTypeModel::Int,
        JavaType::Long => JavaTypeModel::Long,
        JavaType::Boolean => JavaTypeModel::Boolean,
        JavaType::Class(s) => JavaTypeModel::Class(s@),
        JavaType::Array(b) => JavaTypeModel::Array(Box::new(jt_view(*b))),
    }
}

/// The models of a sequence of [`JavaType`] values.
pub open spec fn jts_view(ts: Seq<JavaType>) -> Seq<JavaTypeModel> {
    ts.map_values(|t: JavaType| jt_view(t))
}

/// One decoded method, as mathematical values: access-flag bits, name,
/// parameter types in order, return type.
pub type MethodModel = (u16, Seq<char>, Seq<JavaTypeModel>, JavaTypeModel);

/// A decoded class, as mathematical values: the dot-separated name and
/// the methods in table order.
pub type ClassModel = (Seq<char>, Seq<MethodModel>);

/// A method of a decoded class: access flags as the raw JVM bit set, the
/// method name, its parameter types in order, and its return type.
#[derive(Debug, PartialEq, Eq)]
pub struct Method {
    pub flags: u16,
    pub name: String,
    pub parameters: Vec<JavaType>,
    pub return_type: JavaType,
}

/// A decoded class: its fully qualified, dot-separated name and its
/// methods in table order.  Immutable once decoded.
#[derive(Debug)]
pub struct Classfile {
    pub fqdn: String,
    pub methods: Vec<Method>,
}

/// A slash-separated JVM binary name converted to a dot-separated one.
pub open spec fn dot_name(s: Seq<char>) -> Seq<char> {
    s.map_values(|c: char| if c == '/' { '.' } else { c })
}

/// The index of the first `';'` at or after `from`, if any.
pub open spec fn find_semi(s: Seq<char>, from: int) -> Option<int>
    decreases s.len() - from,
{
    if from < 0 || from >= s.len() {
        None
    } else if s[from] == ';' {
        Some(from)
    } else {
        find_semi(s, from + 1)
    }
}

proof fn lemma_find_semi_bounds(s: Seq<char>, from: int)
    requires
        0 <= from,
    ensures
        find_semi(s, from) matches Some(j) ==> from <= j < s.len(),
    decreases s.len() - from,
{
    if from < s.len() && s[from] != ';' {
        lemma_find_semi_bounds(s, from + 1);
    }
}

/// The type a single descriptor code character denotes, if it is one of
/// the scalar codes.
pub open spec fn scalar_code(c: char) -> Option<JavaTypeModel> {
    if c == 'B' {
        Some(JavaTypeModel::Byte)
    } else if c == 'C' {
        Some(JavaTypeModel::Char)
    } else if c == 'D' {
        Some(JavaTypeModel::Double)
    } else if c == 'F' {
        Some(JavaTypeModel::Float)
    } else if c == 'I' {
        Some(JavaTypeModel::Int)
    } else if c == 'J' {
        Some(JavaTypeModel::Long)
    } else if c == 'S' {
        Some(JavaTypeModel::Short)
    } else if c == 'Z' {
        Some(JavaTypeModel::Boolean)
    } else if c == 'V' {
        Some(JavaTypeModel::Void)
    } else {
        None
    }
}

/// One type decoded from descriptor position `i`: the type together with
/// the position just past it.  `L<name>;` becomes a class type with `/`
/// turned into `.`; `[` wraps the following type in an array; a missing
/// terminator or an unknown code yields none.
pub open spec fn spec_parse_type(s: Seq<char>, i: int) -> Option<(JavaTypeModel, int)>
    decreases s.len() - i,
{
    if i < 0 || i >= s.len() {
        None
    } else if s[i] == 'L' {
        match find_semi(s, i + 1) {
            None => None,
            Some(j) => Some((JavaTypeModel::Class(dot_name(s.subrange(i + 1, j))), j + 1)),
        }
    } else if s[i] == '[' {
        match spec_parse_type(s, i + 1) {
            None => None,
            Some(tj) => Some((JavaTypeModel::Array(Box::new(tj.0)), tj.1)),
        }
    } else {
        match scalar_code(s[i]) {
            None => None,
            Some(t) => Some((t, i + 1)),
        }
    }
}

/// A successfully decoded type ends strictly after where it began and
/// within the descriptor.
pub proof fn lemma_parse_type_bounds(s: Seq<char>, i: int)
    requires
        0 <= i,
    ensures
        spec_parse_type(s, i) matches Some(tj) ==> i < tj.1 <= s.len(),
    decreases s.len() - i,
{
    if 0 <= i < s.len() {
        if s[i] == 'L' {
            lemma_find_semi_bounds(s, i + 1);
        } else if s[i] == '[' {
            lemma_parse_type_bounds(s, i + 1);
        }
    }
}

/// The parameter types decoded from position `i` up to the closing `)`,
/// with the position just past the `)`.  The void code is legal only as
/// a return type, so a parameter decoding to it fails the whole decode.
pub open spec fn spec_parse_params(s: Seq<char>, i: int) -> Option<(Seq<JavaTypeModel>, int)>
    decreases s.len() - i,
        when 0 <= i
        via spec_parse_params_dec
{
    if i >= s.len() {
        None
    } else if s[i] == ')' {
        Some((Seq::<JavaTypeModel>::empty(), i + 1))
    } else {
        match spec_parse_type(s, i) {
            None => None,
            Some(tj) => if tj.0 is Void {
                None
            } else {
                match spec_parse_params(s, tj.1) {
                    None => None,
                    Some(rk) => Some((seq![tj.0] + rk.0, rk.1)),
                }
            },
        }
    }
}

#[via_fn]
proof fn spec_parse_params_dec(s: Seq<char>, i: int) {
    if i < s.len() && s[i] != ')' {
        lemma_parse_type_bounds(s, i);
    }
}

/// A whole method descriptor: `(` then parameter codes then `)` then one
/// return-type code; characters after the return type are ignored.
pub open spec fn spec_parse_descriptor(s: Seq<char>) -> Option<(Seq<JavaTypeModel>, JavaTypeModel)> {
    if s.len() == 0 || s[0] != '(' {
        None
    } else {
        match spec_parse_params(s, 1) {
            None => None,
            Some(pj) => match spec_parse_type(s, pj.1) {
                None => None,
                Some(rj) => Some((pj.0, rj.0)),
            },
        }
    }
}

/// Converts a binary class name to its dot-separated form.
fn dots(v: &Vec<char>) -> (r: Vec<char>)
    ensures
        r@ == dot_name(v@),
{
    let mut r: Vec<char> = Vec::new();
    let mut i: usize = 0;
    while i < v.len()
        invariant
            i <= v@.len(),
            r@ == dot_name(v@.subrange(0, i as int)),
        decreases v@.len() - i,
    {
        if v[i] == '/' {
            r.push('.');
        } else {
            r.push(v[i]);
        }
        assert(r@ =~= dot_name(v@.subrange(0, i + 1 as int))) by {
            assert(v@.subrange(0, i + 1 as int).drop_last() =~= v@.subrange(0, i as int));
            assert(dot_name(v@.subrange(0, i as int)).push(
                if v@[i as int] == '/' { '.' } else { v@[i as int] },
            ) =~= dot_name(v@.subrange(0, i + 1 as int)));
        }
        i += 1;
    }
    assert(v@.subrange(0, v@.len() as int) =~= v@);
    r
}

/// Decodes one field or return type from the descriptor characters,
/// starting at `*pos` and leaving `*pos` just past the decoded type.
pub fn parse_field(chars: &Vec<char>, pos: &mut usize) -> (r: Option<JavaType>)
    ensures
        match spec_parse_type(chars@, *old(pos) as int) {
            Some(tj) => r matches Some(t) && jt_view(t) == tj.0 && *final(pos) == tj.1,
            None => r is None,
        },
    decreases chars@.len() - *old(pos),
{
    let n = chars.len();
    let i = *pos;
    if i >= n {
        return None;
    }
    let c = chars[i];
    if c == 'L' {
        let mut j = i + 1;
        let mut name: Vec<char> = Vec::new();
        while j < n && chars[j] != ';'
            invariant
                n == chars@.len(),
                i + 1 <= j <= n,
                forall|k: int| i + 1 <= k < j ==> chars@[k] != ';',
                name@ == dot_name(chars@.subrange(i + 1, j as int)),
            decreases n - j,
        {
            if chars[j] == '/' {
                name.push('.');
            } else {
                name.push(chars[j]);
            }
            assert(name@ =~= dot_name(chars@.subrange(i + 1, j + 1 as int))) by {
                assert(chars@.subrange(i + 1, j + 1 as int).drop_last() =~= chars@.subrange(
                    i + 1,
                    j as int,
                ));
                assert(dot_name(chars@.subrange(i + 1, j as int)).push(
                    if chars@[j as int] == '/' { '.' } else { chars@[j as int] },
                ) =~= dot_name(chars@.subrange(i + 1, j + 1 as int)));
            }
            j += 1;
        }
        proof {
            lemma_find_semi_scan(chars@, i + 1, j as int);
        }
        if j >= n {
            return None;
        }
        *pos = j + 1;
        Some(JavaType::Class(chars_to_string(&name)))
    } else if c == '[' {
        *pos = i + 1;
        match parse_field(chars, pos) {
            None => None,
            Some(t) => Some(JavaType::Array(Box::new(t))),
        }
    } else {
        let prim = if c == 'B' {
            Some(JavaType::Byte)
        } else if c == 'C' {
            Some(JavaType::Char)
        } else if c == 'D' {
            Some(JavaType::Double)
        } else if c == 'F' {
            Some(JavaType::Float)
        } else if c == 'I' {
            Some(JavaType::Int)
        } else if c == 'J' {
            Some(JavaType::Long)
        } else if c == 'S' {
            Some(JavaType::Short)
        } else if c == 'Z' {
            Some(JavaType::Boolean)
        } else if c == 'V' {
            Some(JavaType::Void)
        } else {
            None
        };
        match prim {
            None => None,
            Some(t) => {
                *pos = i + 1;
                Some(t)
            },
        }
    }
}

/// After a scan that saw no `';'` strictly before `j`, the first `';'`
/// at or after `from` is at `j` exactly when `j` holds one.
proof fn lemma_find_semi_scan(s: Seq<char>, from: int, j: int)
    requires
        0 <= from <= j <= s.len(),
        forall|k: int| from <= k < j ==> s[k] != ';',
    ensures
        j < s.len() && s[j] == ';' ==> find_semi(s, from) == Some(j),
        j == s.len() ==> find_semi(s, from) is None,
    decreases j - from,
{
    if from < j {
        lemma_find_semi_scan(s, from + 1, j);
    } else if j == s.len() {
        lemma_find_semi_none(s, from);
    }
}

proof fn lemma_find_semi_none(s: Seq<char>, from: int)
    requires
        0 <= from,
        forall|k: int| from <= k < s.len() ==> s[k] != ';',
    ensures
        find_semi(s, from) is None,
    decreases s.len() - from,
{
    if from < s.len() {
        lemma_find_semi_none(s, from + 1);
    }
}

/// Decodes a whole method descriptor into its parameter types and return
/// type, exactly as [`spec_parse_descriptor`] describes.
pub fn parse_method_descriptor(chars: &Vec<char>) -> (r: Option<(Vec<JavaType>, JavaType)>)
    ensures
        match spec_parse_descriptor(chars@) {
            Some(pr) => r matches Some(p) && jts_view(p.0@) == pr.0 && jt_view(p.1) == pr.1,
            None => r is None,
        },
{
    let n = chars.len();
    if n == 0 {
        return None;
    }
    if chars[0] != '(' {
        return None;
    }
    let mut pos: usize = 1;
    let mut params: Vec<JavaType> = Vec::new();
    while pos < n && chars[pos] != ')'
        invariant
            n == chars@.len(),
            1 <= pos <= n,
            match spec_parse_params(chars@, pos as int) {
                None => spec_parse_params(chars@, 1) is None,
                Some(rk) => spec_parse_params(chars@, 1) matches Some(fk) && fk.0 == jts_view(
                    params@,
                ) + rk.0 && fk.1 == rk.1,
            },
        decreases n - pos,
    {
        let ghost pos0 = pos as int;
        let ghost params0 = params@;
        match parse_field(chars, &mut pos) {
            None => {
                assert(spec_parse_params(chars@, pos0) is None);
                return None;
            },
            Some(t) => {
                let void_param = match t {
                    JavaType::Void => true,
                    _ => false,
                };
                if void_param {
                    assert(jt_view(t) is Void);
                    assert(spec_parse_params(chars@, pos0) is None);
                    return None;
                }
                proof {
                    lemma_parse_type_bounds(chars@, pos0);
                }
                params.push(t);
                proof {
                    let tj = spec_parse_type(chars@, pos0).unwrap();
                    assert(jts_view(params@) =~= jts_view(params0).push(jt_view(t)));
                    match spec_parse_params(chars@, pos as int) {
                        None => {},
                        Some(rk) => {
                            assert(jts_view(params0) + (seq![tj.0] + rk.0) =~= jts_view(params@)
                                + rk.0);
                        },
                    }
                }
            },
        }
    }
    if pos >= n {
        return None;
    }
    assert(chars@[pos as int] == ')');
    assert(spec_parse_params(chars@, pos as int) == Some(
        (Seq::<JavaTypeModel>::empty(), pos + 1 as int),
    ));
    assert(spec_parse_params(chars@, 1) matches Some(fk) && fk.0 == jts_view(params@) + Seq::<
        JavaTypeModel,
    >::empty() && fk.1 == pos + 1);
    assert(jts_view(params@) + Seq::<JavaTypeModel>::empty() =~= jts_view(params@));
    pos += 1;
    match parse_field(chars, &mut pos) {
        None => None,
        Some(ret) => Some((params, ret)),
    }
}

#[verifier::external_type_specification]
#[verifier::external_body]
pub struct ExClassFile(jclassfile::class_file::ClassFile);

/// What a class-file container `jclassfile` parsed holds: the
/// constant-pool index named by its this-class item.
pub uninterp spec fn class_this_index(c: jclassfile::class_file::ClassFile) -> u16;

/// What a parsed container's constant pool holds at `i`: the name index
/// of a class-reference entry, and none for any other entry.
pub uninterp spec fn class_pool_class_ref(c: jclassfile::class_file::ClassFile, i: int) -> Option<
    u16,
>;

/// What a parsed container's constant pool holds at `i`: the characters
/// of a UTF-8 entry, and none for any other entry.
pub uninterp spec fn class_pool_utf8(c: jclassfile::class_file::ClassFile, i: int) -> Option<
    Seq<char>,
>;

/// What a parsed container's method table holds: per method its
/// access-flag bits, its name index and its descriptor index, in table
/// order.
pub uninterp spec fn class_method_entries(c: jclassfile::class_file::ClassFile) -> Seq<
    (u16, u16, u16),
>;

/// Whether `jclassfile::class_file::parse` accepts the bytes as a class
/// file; the parse is a function of the bytes alone.
pub uninterp spec fn parsed_ok(bytes: Seq<u8>) -> bool;

/// The this-class index of the container the bytes parse to.
pub uninterp spec fn parsed_this_index(bytes: Seq<u8>) -> u16;

/// The name index of the class-reference constant-pool entry at `i` of
/// the container the bytes parse to, and none for any other entry.
pub uninterp spec fn parsed_pool_class_ref(bytes: Seq<u8>, i: int) -> Option<u16>;

/// The characters of the UTF-8 constant-pool entry at `i` of the
/// container the bytes parse to, and none for any other entry.
pub uninterp spec fn parsed_pool_utf8(bytes: Seq<u8>, i: int) -> Option<Seq<char>>;

/// The method table of the container the bytes parse to: per method its
/// access-flag bits, name index and descriptor index, in table order.
pub uninterp spec fn parsed_method_entries(bytes: Seq<u8>) -> Seq<(u16, u16, u16)>;

/// Relies on `jclassfile::class_file::parse`: reads the binary class-file
/// container and returns it structured — succeeding exactly on the bytes
/// the parser accepts — or an error for input that is not a valid class
/// file.  The returned container holds what the bytes determine.
#[verifier::external_body]
fn parse_class_bytes(bytes: &[u8]) -> (r: Option<jclassfile::class_file::ClassFile>)
    ensures
        r is Some <==> parsed_ok(bytes@),
        r matches Some(c) ==> {
            &&& class_this_index(c) == parsed_this_index(bytes@)
            &&& forall|i: int| #[trigger] class_pool_class_ref(c, i) == parsed_pool_class_ref(
                bytes@,
                i,
            )
            &&& forall|i: int| #[trigger] class_pool_utf8(c, i) == parsed_pool_utf8(bytes@, i)
            &&& class_method_entries(c) == parsed_method_entries(bytes@)
        },
{
    jclassfile::class_file::parse(bytes).ok()
}

/// Relies on `ClassFile::this_class`: the constant-pool index of the
/// class this file defines.
#[verifier::external_body]
fn this_class_index(c: &jclassfile::class_file::ClassFile) -> (r: u16)
    ensures
        r == class_this_index(*c),
{
    c.this_class()
}

/// Relies on `ClassFile::constant_pool`: the name index of the `Class`
/// entry at `i`, if the entry exists and is a class reference.
#[verifier::external_body]
fn pool_class_ref(c: &jclassfile::class_file::ClassFile, i: usize) -> (r: Option<u16>)
    ensures
        r == class_pool_class_ref(*c, i as int),
{
    match c.constant_pool().get(i) {
        Some(jclassfile::constant_pool::ConstantPool::Class { name_index }) => Some(*name_index),
        _ => None,
    }
}

/// Relies on `ClassFile::constant_pool`: the string held by the `Utf8`
/// entry at `i`, if the entry exists and is a UTF-8 string.
#[verifier::external_body]
fn pool_utf8(c: &jclassfile::class_file::ClassFile, i: usize) -> (r: Option<String>)
    ensures
        match class_pool_utf8(*c, i as int) {
            Some(s) => r matches Some(v) && v@ == s,
            None => r is None,
        },
{
    match c.constant_pool().get(i) {
        Some(jclassfile::constant_pool::ConstantPool::Utf8 { value }) => Some(value.clone()),
        _ => None,
    }
}

/// Relies on `ClassFile::methods` and the `MethodInfo` getters: each
/// method's access-flag bits, name index and descriptor index.
#[verifier::external_body]
fn method_entries(c: &jclassfile::class_file::ClassFile) -> (r: Vec<(u16, u16, u16)>)
    ensures
        r@ == class_method_entries(*c),
{
    c.methods().iter().map(
        |m| (m.access_flags().bits(), m.name_index(), m.descriptor_index()),
    ).collect()
}

/// The binary name of the class a parsed file defines: the this-class
/// entry resolved through a class reference to a UTF-8 entry.
pub open spec fn spec_class_name(c: jclassfile::class_file::ClassFile) -> Option<Seq<char>> {
    match class_pool_class_ref(c, class_this_index(c) as int) {
        None => None,
        Some(ni) => class_pool_utf8(c, ni as int),
    }
}

/// One decoded method table entry: flags, resolved name, parameter types
/// and return type; none when an index does not resolve to a UTF-8 entry
/// or the descriptor does not follow the grammar.
pub open spec fn spec_decode_method(c: jclassfile::class_file::ClassFile, e: (u16, u16, u16)) -> Option<
    MethodModel,
> {
    match class_pool_utf8(c, e.1 as int) {
        None => None,
        Some(nm) => match class_pool_utf8(c, e.2 as int) {
            None => None,
            Some(d) => match spec_parse_descriptor(d) {
                None => None,
                Some(pr) => Some((e.0, nm, pr.0, pr.1)),
            },
        },
    }
}

/// All method entries decoded in order; none as soon as one fails.
pub open spec fn spec_decode_methods(
    c: jclassfile::class_file::ClassFile,
    es: Seq<(u16, u16, u16)>,
) -> Option<Seq<MethodModel>>
    decreases es.len(),
{
    if es.len() == 0 {
        Some(Seq::empty())
    } else {
        match spec_decode_method(c, es[0]) {
            None => None,
            Some(m) => match spec_decode_methods(c, es.subrange(1, es.len() as int)) {
                None => None,
                Some(ms) => Some(seq![m] + ms),
            },
        }
    }
}

/// Everything the decoder extracts from a parsed class file: the
/// dot-separated name and the decoded method table.
pub open spec fn spec_decode_class(c: jclassfile::class_file::ClassFile) -> Option<ClassModel> {
    match spec_class_name(c) {
        None => None,
        Some(nm) => match spec_decode_methods(c, class_method_entries(c)) {
            None => None,
            Some(ms) => Some((dot_name(nm), ms)),
        },
    }
}

/// The model of a decoded [`Method`].
pub open spec fn method_view(m: Method) -> MethodModel {
    (m.flags, m.name@, jts_view(m.parameters@), jt_view(m.return_type))
}

/// The models of a sequence of decoded methods.
pub open spec fn methods_view(ms: Seq<Method>) -> Seq<MethodModel> {
    ms.map_values(|m: Method| method_view(m))
}

/// The model of a decoded [`Classfile`].
pub open spec fn classfile_view(cf: Classfile) -> ClassModel {
    (cf.fqdn@, methods_view(cf.methods@))
}

/// Decodes an already parsed class-file container, exactly as
/// [`spec_decode_class`] describes: the class name is resolved through
/// the this-class reference and converted to dots, and every method's
/// name and descriptor are resolved and decoded; any unresolved index or
/// malformed descriptor fails the whole decode.
pub fn decode_parsed(class: &jclassfile::class_file::ClassFile) -> (r: Option<Classfile>)
    ensures
        match spec_decode_class(*class) {
            Some(d) => r matches Some(cf) && cf.fqdn@ == d.0 && methods_view(cf.methods@) == d.1,
            None => r is None,
        },
{
    let ti = this_class_index(class);
    let ni = match pool_class_ref(class, ti as usize) {
        None => {
            return None;
        },
        Some(x) => x,
    };
    let raw_name = match pool_utf8(class, ni as usize) {
        None => {
            return None;
        },
        Some(s) => s,
    };
    assert(spec_class_name(*class) matches Some(nm) && raw_name@ == nm);
    let fqdn = chars_to_string(&dots(&str_to_chars(raw_name.as_str())));
    let entries = method_entries(class);
    let mut methods: Vec<Method> = Vec::new();
    let mut k: usize = 0;
    let ghost all = entries@;
    proof {
        assert(all.subrange(0, all.len() as int) =~= all);
        match spec_decode_methods(*class, all) {
            None => {},
            Some(ms) => {
                assert(methods_view(methods@) + ms =~= ms);
            },
        }
    }
    while k < entries.len()
        invariant
            all == entries@,
            all == class_method_entries(*class),
            spec_class_name(*class) matches Some(nm) && fqdn@ == dot_name(nm),
            k <= all.len(),
            match spec_decode_methods(*class, all.subrange(k as int, all.len() as int)) {
                None => spec_decode_methods(*class, all) is None,
                Some(ms) => spec_decode_methods(*class, all) matches Some(full) && full
                    == methods_view(methods@) + ms,
            },
        decreases all.len() - k,
    {
        let ghost rest = all.subrange(k as int, all.len() as int);
        let e = entries[k];
        assert(rest[0] == e);
        assert(rest.subrange(1, rest.len() as int) =~= all.subrange(k + 1, all.len() as int));
        let name = match pool_utf8(class, e.1 as usize) {
            None => {
                assert(spec_decode_method(*class, e) is None);
                assert(spec_decode_methods(*class, rest) is None);
                return None;
            },
            Some(s) => s,
        };
        let desc = match pool_utf8(class, e.2 as usize) {
            None => {
                assert(spec_decode_method(*class, e) is None);
                assert(spec_decode_methods(*class, rest) is None);
                return None;
            },
            Some(s) => s,
        };
        let desc_chars = str_to_chars(desc.as_str());
        let decoded = match parse_method_descriptor(&desc_chars) {
            None => {
                assert(spec_decode_method(*class, e) is None);
                assert(spec_decode_methods(*class, rest) is None);
                return None;
            },
            Some(p) => p,
        };
        let ghost methods0 = methods@;
        methods.push(
            Method {
                flags: e.0,
                name,
                parameters: decoded.0,
                return_type: decoded.1,
            },
        );
        proof {
            let m = spec_decode_method(*class, e).unwrap();
            assert(methods_view(methods@) =~= methods_view(methods0).push(m));
            match spec_decode_methods(*class, all.subrange(k + 1, all.len() as int)) {
                None => {},
                Some(ms) => {
                    assert(methods_view(methods0) + (seq![m] + ms) =~= methods_view(methods@)
                        + ms);
                },
            }
        }
        k += 1;
    }
    assert(all.subrange(k as int, all.len() as int) =~= Seq::<(u16, u16, u16)>::empty());
    assert(methods_view(methods@) + Seq::<MethodModel>::empty() =~= methods_view(methods@));
    Some(Classfile { fqdn, methods })
}

/// The binary class name the bytes determine: the this-class entry
/// resolved through a class reference to a UTF-8 entry.
pub open spec fn spec_class_name_bytes(bytes: Seq<u8>) -> Option<Seq<char>> {
    match parsed_pool_class_ref(bytes, parsed_this_index(bytes) as int) {
        None => None,
        Some(ni) => parsed_pool_utf8(bytes, ni as int),
    }
}

/// One method table entry decoded against the pool the bytes determine.
pub open spec fn spec_decode_method_bytes(bytes: Seq<u8>, e: (u16, u16, u16)) -> Option<
    MethodModel,
> {
    match parsed_pool_utf8(bytes, e.1 as int) {
        None => None,
        Some(nm) => match parsed_pool_utf8(bytes, e.2 as int) {
            None => None,
            Some(d) => match spec_parse_descriptor(d) {
                None => None,
                Some(pr) => Some((e.0, nm, pr.0, pr.1)),
            },
        },
    }
}

/// All method entries decoded in order against the pool the bytes
/// determine; none as soon as one fails.
pub open spec fn spec_decode_methods_bytes(bytes: Seq<u8>, es: Seq<(u16, u16, u16)>) -> Option<
    Seq<MethodModel>,
>
    decreases es.len(),
{
    if es.len() == 0 {
        Some(Seq::empty())
    } else {
        match spec_decode_method_bytes(bytes, es[0]) {
            None => None,
            Some(m) => match spec_decode_methods_bytes(bytes, es.subrange(1, es.len() as int)) {
                None => None,
                Some(ms) => Some(seq![m] + ms),
            },
        }
    }
}

/// Everything decoding a byte buffer yields: none unless the bytes parse
/// as a class file, the this-class reference resolves and every method
/// decodes; otherwise the dotted name and the decoded method table.
pub open spec fn spec_decode_bytes(bytes: Seq<u8>) -> Option<ClassModel> {
    if !parsed_ok(bytes) {
        None
    } else {
        match spec_class_name_bytes(bytes) {
            None => None,
            Some(nm) => match spec_decode_methods_bytes(bytes, parsed_method_entries(bytes)) {
                None => None,
                Some(ms) => Some((dot_name(nm), ms)),
            },
        }
    }
}

/// A container that holds what the bytes determine decodes to the same
/// class model as the bytes.
proof fn lemma_decode_congruent(c: jclassfile::class_file::ClassFile, bytes: Seq<u8>)
    requires
        class_this_index(c) == parsed_this_index(bytes),
        forall|i: int| #[trigger] class_pool_class_ref(c, i) == parsed_pool_class_ref(bytes, i),
        forall|i: int| #[trigger] class_pool_utf8(c, i) == parsed_pool_utf8(bytes, i),
        class_method_entries(c) == parsed_method_entries(bytes),
        parsed_ok(bytes),
    ensures
        spec_decode_bytes(bytes) == spec_decode_class(c),
{
    assert(spec_class_name(c) == spec_class_name_bytes(bytes));
    lemma_decode_methods_congruent(c, bytes, class_method_entries(c));
}

proof fn lemma_decode_methods_congruent(
    c: jclassfile::class_file::ClassFile,
    bytes: Seq<u8>,
    es: Seq<(u16, u16, u16)>,
)
    requires
        forall|i: int| #[trigger] class_pool_utf8(c, i) == parsed_pool_utf8(bytes, i),
    ensures
        spec_decode_methods(c, es) == spec_decode_methods_bytes(bytes, es),
    decreases es.len(),
{
    if es.len() > 0 {
        assert(spec_decode_method(c, es[0]) == spec_decode_method_bytes(bytes, es[0]));
        lemma_decode_methods_congruent(c, bytes, es.subrange(1, es.len() as int));
    }
}

impl Classfile {
    /// Decodes raw class-file bytes, exactly as [`spec_decode_bytes`]
    /// describes: some class if and only if the bytes parse as a class
    /// file, the this-class reference resolves through a class/UTF-8
    /// pair, and every method's name and descriptor decode; the returned
    /// class always carries a dot-separated name.
    pub fn new(bytes: &[u8]) -> (r: Option<Classfile>)
        ensures
            match spec_decode_bytes(bytes@) {
                Some(d) => r matches Some(cf) && classfile_view(cf) == d,
                None => r is None,
            },
            r matches Some(cf) ==> forall|k: int|
                0 <= k < cf.fqdn@.len() ==> cf.fqdn@[k] != '/',
    {
        match parse_class_bytes(bytes) {
            None => None,
            Some(class) => {
                proof {
                    lemma_decode_congruent(class, bytes@);
                }
                let r = decode_parsed(&class);
                proof {
                    match spec_decode_class(class) {
                        Some(d) => {
                            assert(forall|k: int| 0 <= k < d.0.len() ==> d.0[k] != '/') by {
                                let nm = spec_class_name(class).unwrap();
                                assert(forall|k: int|
                                    0 <= k < nm.len() ==> #[trigger] dot_name(nm)[k] != '/');
                            }
                        },
                        None => {},
                    }
                }
                r
            },
        }
    }
}

} // verus!
