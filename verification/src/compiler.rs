//! From source text to program.
//!
//! The source is read once, from left to right. Each character is either an
//! instruction of its own, the start of a definition header `(name):{`, the
//! `}` that closes a definition, the start of a call `~name;`, or a literal
//! that is kept as a no-op. Names get dense ids in the order in which they
//! are first met, in a header or in a call. The program ends with `Halt`.
use vstd::prelude::*;
use std::collections::HashMap;
use crate::error::{MooError, MooErrorKind};
use crate::instruction::{is_reserved, plain_instruction, subroutine_of, MooInst};
use crate::machine::suppressed_at;
use crate::runner::Runner;
use crate::text::{
    byte_offset, byte_offsets, char_is_identifier, char_is_lowercase, char_is_space, chars_of,
    is_identifier_char, is_lowercase, is_space, lemma_byte_offset_bound,
    lemma_byte_offset_monotonic,
};
use vstd::utf8::encode_utf8;

verus! {

/// Index of the first character at or after `i` that is no white space.
pub open spec fn skip_spaces(src: Seq<char>, i: int) -> int
    decreases src.len() - i,
{
    if 0 <= i < src.len() && is_space(src[i]) {
        skip_spaces(src, i + 1)
    } else {
        i
    }
}

/// Index of the first character at or after `i` that a name cannot hold.
pub open spec fn skip_identifier(src: Seq<char>, i: int) -> int
    decreases src.len() - i,
{
    if 0 <= i < src.len() && is_identifier_char(src[i]) {
        skip_identifier(src, i + 1)
    } else {
        i
    }
}

/// The name that starts at `i`, and the index of what follows it. White space
/// before and after the name is passed over and is no part of the name.
pub open spec fn identifier_at(src: Seq<char>, i: int) -> Result<(Seq<char>, int), MooErrorKind> {
    let start = skip_spaces(src, i);
    if start >= src.len() {
        Err(MooErrorKind::EmptyIdentifier)
    } else if !is_lowercase(src[start]) {
        Err(MooErrorKind::IdentifierNotLowercase)
    } else {
        let end = skip_identifier(src, start);
        Ok((src.subrange(start, end), skip_spaces(src, end)))
    }
}

/// Whether the character at index `i` exists and is `c`.
pub open spec fn has_char(src: Seq<char>, i: int, c: char) -> bool {
    0 <= i < src.len() && src[i] == c
}

/// What follows the `(` of a definition header: the name, then `)`, `:` and
/// `{`. Gives the name and the index after the `{`.
pub open spec fn definition_at(src: Seq<char>, i: int) -> Result<(Seq<char>, int), MooErrorKind> {
    match identifier_at(src, i) {
        Err(e) => Err(e),
        Ok((name, j)) => {
            if !has_char(src, j, ')') {
                Err(MooErrorKind::ExpectedCloseParen)
            } else if !has_char(src, j + 1, ':') {
                Err(MooErrorKind::ExpectedColon)
            } else if !has_char(src, j + 2, '{') {
                Err(MooErrorKind::ExpectedOpenBrace)
            } else {
                Ok((name, j + 3))
            }
        },
    }
}

/// What follows the `~` of a call: the name, then `;`. Gives the name and the
/// index after the `;`.
pub open spec fn call_at(src: Seq<char>, i: int) -> Result<(Seq<char>, int), MooErrorKind> {
    match identifier_at(src, i) {
        Err(e) => Err(e),
        Ok((name, j)) => {
            if !has_char(src, j, ';') {
                Err(MooErrorKind::ExpectedSemicolon)
            } else {
                Ok((name, j + 1))
            }
        },
    }
}

/// The span of the characters from index `i` up to `j`: the byte offset of
/// the first and the number of bytes they take.
pub open spec fn span_of(src: Seq<char>, i: int, j: int) -> (usize, usize) {
    (byte_offset(src, i) as usize, (byte_offset(src, j) - byte_offset(src, i)) as usize)
}

/// Index of the first name at or after `from` that equals `name`; the number
/// of names if there is none.
pub open spec fn name_index_from(names: Seq<Seq<char>>, name: Seq<char>, from: int) -> int
    decreases names.len() - from,
{
    if from < 0 || from >= names.len() {
        names.len() as int
    } else if names[from] == name {
        from
    } else {
        name_index_from(names, name, from + 1)
    }
}

/// The id of a name: its index among the names met so far, or the next free
/// index if it was not met yet.
pub open spec fn name_id(names: Seq<Seq<char>>, name: Seq<char>) -> int {
    name_index_from(names, name, 0)
}

/// What the compiler has gathered after reading a prefix of the source.
pub struct Scan {
    /// The names met so far; the id of a name is its index.
    pub names: Seq<Seq<char>>,
    /// For each subroutine defined so far, the index of its `FuncStart`.
    pub index: Map<usize, usize>,
    /// The instructions emitted so far, each with its span.
    pub program: Seq<(MooInst, (usize, usize))>,
    /// The subroutine whose definition is open.
    pub open: Option<usize>,
}

impl Scan {
    /// Nothing read yet.
    pub open spec fn start() -> Scan {
        Scan { names: Seq::empty(), index: Map::empty(), program: Seq::empty(), open: None }
    }

    /// One more instruction.
    pub open spec fn emit(self, inst: MooInst, span: (usize, usize)) -> Scan {
        Scan { program: self.program.push((inst, span)), ..self }
    }

    /// The names with `name` among them.
    pub open spec fn intern(self, name: Seq<char>) -> Scan {
        if name_id(self.names, name) == self.names.len() {
            Scan { names: self.names.push(name), ..self }
        } else {
            self
        }
    }

    /// A definition of `name` opens here.
    pub open spec fn define(self, name: Seq<char>, span: (usize, usize)) -> Scan {
        let id = name_id(self.names, name) as usize;
        Scan {
            names: self.intern(name).names,
            index: self.index.insert(id, self.program.len() as usize),
            program: self.program.push((MooInst::FuncStart(id), span)),
            open: Some(id),
        }
    }

    /// A call of `name`.
    pub open spec fn call(self, name: Seq<char>, span: (usize, usize)) -> Scan {
        let id = name_id(self.names, name) as usize;
        self.intern(name).emit(MooInst::Call(id), span)
    }

    /// The open definition, of subroutine `id`, closes here.
    pub open spec fn close(self, id: usize, span: (usize, usize)) -> Scan {
        Scan { program: self.program.push((MooInst::FuncEnd(id), span)), open: None, ..self }
    }
}

/// Reads what starts at index `i`: gives what has been gathered after it and
/// the index at which reading goes on.
pub open spec fn scan_step(src: Seq<char>, i: int, st: Scan) -> Result<(Scan, int), MooErrorKind> {
    let c = src[i];
    if c == '(' {
        if st.open is Some {
            Err(MooErrorKind::NestedDefinition)
        } else {
            match definition_at(src, i + 1) {
                Err(e) => Err(e),
                Ok((name, next)) => Ok((st.define(name, span_of(src, i, next)), next)),
            }
        }
    } else if c == '}' {
        match st.open {
            Some(id) => Ok((st.close(id, span_of(src, i, i + 1)), i + 1)),
            None => Err(MooErrorKind::UnknownDefinitionEnd),
        }
    } else if c == '~' {
        match call_at(src, i + 1) {
            Err(e) => Err(e),
            Ok((name, next)) => Ok((st.call(name, span_of(src, i, next)), next)),
        }
    } else {
        Ok((st.emit(plain_instruction(c), span_of(src, i, i + 1)), i + 1))
    }
}

/// Reads the source from index `i` to its end.
pub open spec fn scan(src: Seq<char>, i: int, st: Scan) -> Result<Scan, MooErrorKind>
    decreases src.len() - i,
{
    if i < 0 || i >= src.len() {
        if st.open is Some {
            Err(MooErrorKind::UnclosedDefinition)
        } else {
            Ok(st.emit(MooInst::Halt, (byte_offset(src, src.len() as int) as usize, 1)))
        }
    } else {
        match scan_step(src, i, st) {
            Err(e) => Err(e),
            Ok((after, next)) => {
                proof {
                    lemma_scan_step_advances(src, i, st);
                }
                scan(src, next, after)
            },
        }
    }
}

/// The program that a source text compiles to, with the table that gives for
/// each defined subroutine the index of its `FuncStart`; or the reason why
/// the text is rejected.
pub open spec fn compile(src: Seq<char>) -> Result<
    (Seq<(MooInst, (usize, usize))>, Map<usize, usize>),
    MooErrorKind,
> {
    match scan(src, 0, Scan::start()) {
        Ok(st) => Ok((st.program, st.index)),
        Err(e) => Err(e),
    }
}

/// Skipping white space never goes backwards nor past the end.
pub proof fn lemma_skip_spaces_bounds(src: Seq<char>, i: int)
    requires
        0 <= i <= src.len(),
    ensures
        i <= skip_spaces(src, i) <= src.len(),
        forall|k: int| i <= k < skip_spaces(src, i) ==> is_space(#[trigger] src[k]),
        skip_spaces(src, i) < src.len() ==> !is_space(src[skip_spaces(src, i)]),
    decreases src.len() - i,
{
    if i < src.len() && is_space(src[i]) {
        lemma_skip_spaces_bounds(src, i + 1);
    }
}

/// Skipping a name never goes backwards nor past the end.
pub proof fn lemma_skip_identifier_bounds(src: Seq<char>, i: int)
    requires
        0 <= i <= src.len(),
    ensures
        i <= skip_identifier(src, i) <= src.len(),
        forall|k: int| i <= k < skip_identifier(src, i) ==> is_identifier_char(#[trigger] src[k]),
        skip_identifier(src, i) < src.len() ==> !is_identifier_char(src[skip_identifier(src, i)]),
    decreases src.len() - i,
{
    if i < src.len() && is_identifier_char(src[i]) {
        lemma_skip_identifier_bounds(src, i + 1);
    }
}

/// A name that is found is not empty, and what follows it lies within the source.
pub proof fn lemma_identifier_at_bounds(src: Seq<char>, i: int)
    requires
        0 <= i <= src.len(),
    ensures
        identifier_at(src, i) matches Ok((name, next)) ==> i < next <= src.len() && 0 < name.len()
            <= next - i,
{
    lemma_skip_spaces_bounds(src, i);
    let start = skip_spaces(src, i);
    if start < src.len() && is_lowercase(src[start]) {
        lemma_skip_identifier_bounds(src, start);
        lemma_skip_identifier_bounds(src, start + 1);
        lemma_skip_spaces_bounds(src, skip_identifier(src, start));
    }
}

/// Each reading step consumes at least one character and stays within the source.
pub proof fn lemma_scan_step_advances(src: Seq<char>, i: int, st: Scan)
    requires
        0 <= i < src.len(),
    ensures
        scan_step(src, i, st) matches Ok((_, next)) ==> i < next <= src.len(),
{
    lemma_identifier_at_bounds(src, i + 1);
}

/// The id of a name is the index at which the name stands, or the next free
/// index if the name stands nowhere.
pub proof fn lemma_name_index_bounds(names: Seq<Seq<char>>, name: Seq<char>, from: int)
    requires
        0 <= from <= names.len(),
    ensures
        from <= name_index_from(names, name, from) <= names.len(),
        name_index_from(names, name, from) < names.len() ==> names[name_index_from(
            names,
            name,
            from,
        )] == name,
        forall|k: int| from <= k < name_index_from(names, name, from) ==> names[k] != name,
    decreases names.len() - from,
{
    if from < names.len() && names[from] != name {
        lemma_name_index_bounds(names, name, from + 1);
    }
}

/// Reads a subroutine name from `chars`, starting at index `from`. White
/// space before the name and after it is passed over. Returns the name and
/// the number of characters read, white space included.
pub fn fetch_identifier(chars: &[char], from: usize) -> (r: Result<(String, usize), MooError>)
    requires
        from <= chars@.len(),
    ensures
        match r {
            Ok((name, eaten)) => identifier_at(chars@, from as int) == Ok::<
                (Seq<char>, int),
                MooErrorKind,
            >((name@, from + eaten)),
            Err(e) => identifier_at(chars@, from as int) == Err::<(Seq<char>, int), MooErrorKind>(
                e@,
            ),
        },
{
    let n = chars.len();
    let mut start: usize = from;
    while start < n && char_is_space(chars[start])
        invariant
            from <= start <= n,
            n == chars@.len(),
            skip_spaces(chars@, from as int) == skip_spaces(chars@, start as int),
        decreases n - start,
    {
        start = start + 1;
    }
    if start >= n {
        return Err(MooError::new(MooErrorKind::EmptyIdentifier));
    }
    if !char_is_lowercase(chars[start]) {
        return Err(MooError::new(MooErrorKind::IdentifierNotLowercase));
    }
    let mut identifier: String = String::new();
    let mut end: usize = start;
    while end < n && char_is_identifier(chars[end])
        invariant
            start <= end <= n,
            n == chars@.len(),
            skip_identifier(chars@, start as int) == skip_identifier(chars@, end as int),
            identifier@ == chars@.subrange(start as int, end as int),
        decreases n - end,
    {
        identifier.push(chars[end]);
        assert(chars@.subrange(start as int, end as int + 1) =~= chars@.subrange(
            start as int,
            end as int,
        ).push(chars@[end as int]));
        end = end + 1;
    }
    let mut next: usize = end;
    while next < n && char_is_space(chars[next])
        invariant
            end <= next <= n,
            n == chars@.len(),
            skip_spaces(chars@, end as int) == skip_spaces(chars@, next as int),
        decreases n - next,
    {
        next = next + 1;
    }
    Ok((identifier, next - from))
}

/// What holds of every compiled program: it ends with its only `Halt`, and
/// the table leads each defined subroutine to its `FuncStart`.
pub open spec fn well_formed_program(
    program: Seq<(MooInst, (usize, usize))>,
    index: Map<usize, usize>,
) -> bool {
    &&& program.len() > 0
    &&& program.last().0 is Halt
    &&& forall|k: int| 0 <= k < program.len() - 1 ==> !(#[trigger] program[k].0 is Halt)
    &&& forall|id: usize|
        index.contains_key(id) ==> (#[trigger] index[id]) < program.len() - 1
            && program[index[id] as int].0 == MooInst::FuncStart(id)
}

/// Whether `entry` is the no-op that the character at index `i` of the source
/// compiles to.
pub open spec fn literal_origin(src: Seq<char>, i: int, entry: (MooInst, (usize, usize))) -> bool {
    &&& 0 <= i < src.len()
    &&& !is_reserved(src[i])
    &&& entry == (MooInst::Nop(src[i]), span_of(src, i, i + 1))
}

/// What holds of what the compiler has gathered when it stands at index `i`.
pub open spec fn scan_inv(src: Seq<char>, i: int, st: Scan) -> bool {
    &&& st.program.len() <= i
    &&& st.names.len() <= i
    &&& forall|k: int| 0 <= k < st.program.len() ==> !(#[trigger] st.program[k].0 is Halt)
    &&& forall|id: usize|
        st.index.contains_key(id) ==> (#[trigger] st.index[id]) < st.program.len()
            && st.program[st.index[id] as int].0 == MooInst::FuncStart(id)
    &&& forall|k: int|
        0 <= k < st.program.len() && (#[trigger] st.program[k]).0 is Nop ==> exists|j: int|
            literal_origin(src, j, st.program[k])
}

/// One reading step keeps [`scan_inv`].
pub proof fn lemma_scan_step_keeps_inv(src: Seq<char>, i: int, st: Scan)
    requires
        0 <= i < src.len(),
        src.len() <= usize::MAX,
        scan_inv(src, i, st),
    ensures
        scan_step(src, i, st) matches Ok((after, next)) ==> i < next <= src.len() && scan_inv(
            src,
            next,
            after,
        ),
{
    lemma_scan_step_advances(src, i, st);
    if let Ok((after, next)) = scan_step(src, i, st) {
        let c = src[i];
        assert(after.program.len() == st.program.len() + 1);
        assert(forall|k: int| 0 <= k < st.program.len() ==> after.program[k] == st.program[k]);
        let added = after.program[st.program.len() as int];
        assert(!(added.0 is Halt));
        if added.0 is Nop {
            assert(literal_origin(src, i, added));
        }
        assert forall|k: int|
            0 <= k < after.program.len() && (#[trigger] after.program[k]).0 is Nop implies exists|
            j: int,
        | literal_origin(src, j, after.program[k]) by {
            if k < st.program.len() {
                assert(after.program[k] == st.program[k]);
            }
        }
        assert forall|id: usize| after.index.contains_key(id) implies (#[trigger] after.index[id])
            < after.program.len() && after.program[after.index[id] as int].0 == MooInst::FuncStart(
            id,
        ) by {
            if st.index.contains_key(id) && after.index[id] == st.index[id] {
                assert(after.program[st.index[id] as int] == st.program[st.index[id] as int]);
            }
        }
    }
}

/// Reading to the end keeps [`scan_inv`] for all that precedes the final `Halt`.
pub proof fn lemma_scan_keeps_inv(src: Seq<char>, i: int, st: Scan)
    requires
        0 <= i <= src.len(),
        src.len() <= usize::MAX,
        scan_inv(src, i, st),
    ensures
        scan(src, i, st) matches Ok(end) ==> {
            &&& end.program.len() > 0
            &&& end.program.last().0 is Halt
            &&& end.open is None
            &&& scan_inv(src, src.len() as int, Scan { program: end.program.drop_last(), ..end })
        },
    decreases src.len() - i,
{
    if i >= src.len() {
        if st.open is None {
            let end = scan(src, i, st)->Ok_0;
            assert(end.program.drop_last() =~= st.program);
        }
    } else {
        lemma_scan_step_keeps_inv(src, i, st);
        if let Ok((after, next)) = scan_step(src, i, st) {
            lemma_scan_keeps_inv(src, next, after);
        }
    }
}

/// Whether some instruction of the program names the subroutine `id`.
pub open spec fn mentions(program: Seq<(MooInst, (usize, usize))>, id: usize) -> bool {
    exists|k: int| 0 <= k < program.len() && subroutine_of(#[trigger] program[k].0) == Some(id)
}

/// What holds of the ids that the compiler has given out: no name stands
/// twice among the names, so that a name has one id and an id one name; the
/// program, the table and the open definition name no id that was not given;
/// and every id that was given is named by the program.
pub open spec fn ids_inv(st: Scan) -> bool {
    &&& forall|a: int, b: int|
        0 <= a < b < st.names.len() ==> #[trigger] st.names[a] != #[trigger] st.names[b]
    &&& forall|k: int|
        0 <= k < st.program.len() ==> (subroutine_of(#[trigger] st.program[k].0) matches Some(id)
            ==> id < st.names.len())
    &&& forall|id: usize| #[trigger] st.index.contains_key(id) ==> id < st.names.len()
    &&& st.open matches Some(id) ==> id < st.names.len()
    &&& forall|id: usize| id < st.names.len() ==> #[trigger] mentions(st.program, id)
}

/// One reading step keeps [`ids_inv`].
pub proof fn lemma_scan_step_keeps_ids(src: Seq<char>, i: int, st: Scan)
    requires
        0 <= i < src.len(),
        src.len() <= usize::MAX,
        st.names.len() <= i,
        ids_inv(st),
    ensures
        scan_step(src, i, st) matches Ok((after, next)) ==> ids_inv(after),
{
    if let Ok((after, next)) = scan_step(src, i, st) {
        let at = st.program.len() as int;
        assert(after.program.len() == at + 1);
        assert(forall|k: int| 0 <= k < at ==> after.program[k] == st.program[k]);
        let c = src[i];
        if c == '(' || c == '~' {
            let name = if c == '(' {
                definition_at(src, i + 1)->Ok_0.0
            } else {
                call_at(src, i + 1)->Ok_0.0
            };
            lemma_name_index_bounds(st.names, name, 0);
            let id = name_id(st.names, name);
            assert(subroutine_of(after.program[at].0) == Some(id as usize));
            assert(after.names == st.intern(name).names);
            assert(id < after.names.len());
        }
        assert forall|id: usize| id < after.names.len() implies #[trigger] mentions(
            after.program,
            id,
        ) by {
            if id < st.names.len() {
                assert(mentions(st.program, id));
                let k = choose|k: int|
                    0 <= k < st.program.len() && subroutine_of(#[trigger] st.program[k].0) == Some(
                        id,
                    );
                assert(subroutine_of(after.program[k].0) == Some(id));
            } else {
                assert(subroutine_of(after.program[at].0) == Some(id));
            }
        }
    }
}

/// Reading to the end keeps [`ids_inv`].
pub proof fn lemma_scan_keeps_ids(src: Seq<char>, i: int, st: Scan)
    requires
        0 <= i <= src.len(),
        src.len() <= usize::MAX,
        scan_inv(src, i, st),
        ids_inv(st),
    ensures
        scan(src, i, st) matches Ok(end) ==> ids_inv(end),
    decreases src.len() - i,
{
    if i >= src.len() {
        if st.open is None {
            let end = scan(src, i, st)->Ok_0;
            assert(forall|k: int| 0 <= k < st.program.len() ==> end.program[k] == st.program[k]);
            assert forall|id: usize| id < end.names.len() implies #[trigger] mentions(
                end.program,
                id,
            ) by {
                assert(mentions(st.program, id));
                let k = choose|k: int|
                    0 <= k < st.program.len() && subroutine_of(#[trigger] st.program[k].0) == Some(
                        id,
                    );
                assert(subroutine_of(end.program[k].0) == Some(id));
            }
        }
    } else {
        lemma_scan_step_keeps_inv(src, i, st);
        lemma_scan_step_keeps_ids(src, i, st);
        if let Ok((after, next)) = scan_step(src, i, st) {
            lemma_scan_keeps_ids(src, next, after);
        }
    }
}

/// Whether `span` is the span of the characters from index `from` up to `to`
/// of the source, of which there is one at least.
pub open spec fn covers(src: Seq<char>, span: (usize, usize), from: int, to: int) -> bool {
    0 <= from < to <= src.len() && span == span_of(src, from, to)
}

/// Whether `span` is the span of some characters of the source before index `i`.
pub open spec fn placed(src: Seq<char>, span: (usize, usize), i: int) -> bool {
    exists|from: int, to: int| to <= i && #[trigger] covers(src, span, from, to)
}

/// What holds of the spans that the compiler has given out when it stands at
/// index `i`: each is the span of some characters before `i`, and each starts
/// where the one before it ends, or later.
pub open spec fn spans_inv(src: Seq<char>, i: int, st: Scan) -> bool {
    &&& forall|k: int| 0 <= k < st.program.len() ==> placed(src, (#[trigger] st.program[k]).1, i)
    &&& forall|k: int|
        0 <= k < st.program.len() - 1 ==> (#[trigger] st.program[k]).1.0 + st.program[k].1.1
            <= st.program[k + 1].1.0
    &&& st.program.len() > 0 ==> st.program.last().1.0 + st.program.last().1.1 <= byte_offset(
        src,
        i,
    )
}

/// One reading step keeps [`spans_inv`].
pub proof fn lemma_scan_step_keeps_spans(src: Seq<char>, i: int, st: Scan)
    requires
        0 <= i < src.len(),
        encode_utf8(src).len() <= usize::MAX,
        spans_inv(src, i, st),
    ensures
        scan_step(src, i, st) matches Ok((after, next)) ==> spans_inv(src, next, after),
{
    lemma_scan_step_advances(src, i, st);
    if let Ok((after, next)) = scan_step(src, i, st) {
        let at = st.program.len() as int;
        lemma_byte_offset_monotonic(src, i, next);
        lemma_byte_offset_bound(src, next);
        assert(after.program.len() == at + 1);
        assert(forall|k: int| 0 <= k < at ==> after.program[k] == st.program[k]);
        assert(after.program[at].1 == span_of(src, i, next));
        assert(covers(src, after.program[at].1, i, next));
        assert forall|k: int| 0 <= k < after.program.len() implies placed(
            src,
            (#[trigger] after.program[k]).1,
            next,
        ) by {
            if k < at {
                assert(placed(src, st.program[k].1, i));
                let (from, to) = choose|from: int, to: int|
                    to <= i && #[trigger] covers(src, st.program[k].1, from, to);
                assert(to <= next && covers(src, after.program[k].1, from, to));
            } else {
                assert(next <= next && covers(src, after.program[k].1, i, next));
            }
        }
        assert forall|k: int| 0 <= k < after.program.len() - 1 implies (
        #[trigger] after.program[k]).1.0 + after.program[k].1.1 <= after.program[k + 1].1.0 by {
            if k < at - 1 {
                assert(st.program[k].1.0 + st.program[k].1.1 <= st.program[k + 1].1.0);
            } else {
                assert(st.program.last() == st.program[k]);
            }
        }
    }
}

/// Reading to the end keeps [`spans_inv`] for all that precedes the final
/// `Halt`, whose span starts at the end of the source.
pub proof fn lemma_scan_keeps_spans(src: Seq<char>, i: int, st: Scan)
    requires
        0 <= i <= src.len(),
        encode_utf8(src).len() <= usize::MAX,
        spans_inv(src, i, st),
    ensures
        scan(src, i, st) matches Ok(end) ==> {
            &&& end.program.len() > 0
            &&& end.program.last().1 == (encode_utf8(src).len() as usize, 1usize)
            &&& spans_inv(src, src.len() as int, Scan { program: end.program.drop_last(), ..end })
        },
    decreases src.len() - i,
{
    if i >= src.len() {
        if st.open is None {
            let end = scan(src, i, st)->Ok_0;
            assert(end.program.drop_last() =~= st.program);
            lemma_byte_offset_bound(src, i);
        }
    } else {
        lemma_scan_step_advances(src, i, st);
        lemma_scan_step_keeps_spans(src, i, st);
        if let Ok((after, next)) = scan_step(src, i, st) {
            lemma_scan_keeps_spans(src, next, after);
        }
    }
}

/// Whether a definition is open is what the program says: the end of what
/// was emitted lies inside a definition exactly if one is open.
pub open spec fn nesting_inv(st: Scan) -> bool {
    suppressed_at(st.program, st.program.len() as int) == (st.open is Some)
}

/// What lies inside a definition depends on what precedes it alone.
pub proof fn lemma_suppressed_at_prefix(
    program: Seq<(MooInst, (usize, usize))>,
    longer: Seq<(MooInst, (usize, usize))>,
    at: int,
)
    requires
        0 <= at <= program.len() <= longer.len(),
        forall|k: int| 0 <= k < program.len() ==> program[k] == longer[k],
    ensures
        suppressed_at(program, at) == suppressed_at(longer, at),
    decreases at,
{
    if at > 0 {
        lemma_suppressed_at_prefix(program, longer, at - 1);
    }
}

/// Reading to the end keeps [`nesting_inv`]: the final `Halt` lies outside
/// every definition.
pub proof fn lemma_scan_keeps_nesting(src: Seq<char>, i: int, st: Scan)
    requires
        0 <= i <= src.len(),
        nesting_inv(st),
    ensures
        scan(src, i, st) matches Ok(end) ==> !suppressed_at(end.program, end.program.len() - 1),
    decreases src.len() - i,
{
    if i >= src.len() {
        if st.open is None {
            let end = scan(src, i, st)->Ok_0;
            lemma_suppressed_at_prefix(st.program, end.program, st.program.len() as int);
        }
    } else {
        lemma_scan_step_advances(src, i, st);
        if let Ok((after, next)) = scan_step(src, i, st) {
            let at = st.program.len() as int;
            assert(after.program.len() == at + 1);
            assert(forall|k: int| 0 <= k < at ==> after.program[k] == st.program[k]);
            lemma_suppressed_at_prefix(st.program, after.program, at);
            lemma_scan_keeps_nesting(src, next, after);
        }
    }
}

/// A text has no more characters than its encoding has bytes.
pub proof fn lemma_length_fits(src: Seq<char>)
    ensures
        src.len() <= encode_utf8(src).len(),
{
    lemma_byte_offset_monotonic(src, 0, src.len() as int);
    lemma_byte_offset_bound(src, 0);
}

/// Every program that the compiler gives is well formed.
pub proof fn lemma_compile_well_formed(src: Seq<char>)
    requires
        encode_utf8(src).len() <= usize::MAX,
    ensures
        compile(src) matches Ok((program, index)) ==> well_formed_program(program, index),
{
    lemma_length_fits(src);
    lemma_scan_keeps_inv(src, 0, Scan::start());
    if let Ok(end) = scan(src, 0, Scan::start()) {
        let body = end.program.drop_last();
        assert forall|k: int| 0 <= k < end.program.len() - 1 implies !(
        #[trigger] end.program[k].0 is Halt) by {
            assert(end.program[k] == body[k]);
        }
        assert forall|id: usize| end.index.contains_key(id) implies (#[trigger] end.index[id])
            < end.program.len() - 1 && end.program[end.index[id] as int].0 == MooInst::FuncStart(
            id,
        ) by {
            assert(end.program[end.index[id] as int] == body[end.index[id] as int]);
        }
    }
}

/// The texts of the names, in order.
pub open spec fn names_of(names: Seq<String>) -> Seq<Seq<char>> {
    Seq::new(names.len(), |k: int| names[k]@)
}

/// The id of `ident` among `names`; a name that is new is added at the end.
fn resolve(names: &mut Vec<String>, ident: String) -> (id: usize)
    ensures
        id == name_id(names_of(old(names)@), ident@),
        names_of(final(names)@) == (Scan {
            names: names_of(old(names)@),
            index: Map::empty(),
            program: Seq::empty(),
            open: None,
        }).intern(ident@).names,
{
    let ghost before = names_of(names@);
    let mut k: usize = 0;
    while k < names.len()
        invariant
            0 <= k <= names@.len(),
            names_of(names@) == before,
            *names == *old(names),
            name_id(before, ident@) == name_index_from(before, ident@, k as int),
        decreases names@.len() - k,
    {
        if names[k] == ident {
            return k;
        }
        k = k + 1;
    }
    names.push(ident);
    assert(names_of(names@) =~= before.push(ident@));
    k
}

impl Runner {
    /// Compiles a source text: gives the program, each instruction with the
    /// byte offset and byte length of the text it stands for, and the table
    /// from subroutine id to the index of the subroutine's `FuncStart`. A text
    /// that is rejected gives the error and nothing else.
    pub fn process(program: &str) -> (r: Result<
        (Vec<(MooInst, (usize, usize))>, HashMap<usize, usize>),
        MooError,
    >)
        ensures
            match r {
                Ok((instructions, index)) => compile(program@) == Ok::<
                    (Seq<(MooInst, (usize, usize))>, Map<usize, usize>),
                    MooErrorKind,
                >((instructions@, index@)) && well_formed_program(instructions@, index@),
                Err(e) => compile(program@) == Err::<
                    (Seq<(MooInst, (usize, usize))>, Map<usize, usize>),
                    MooErrorKind,
                >(e@),
            },
    {
        broadcast use vstd::std_specs::hash::group_hash_axioms;

        let chars = chars_of(program);
        let total = program.as_bytes().len();
        assert(encode_utf8(chars@).len() == total);
        let offsets = byte_offsets(&chars);
        let n = chars.len();
        let mut names: Vec<String> = Vec::new();
        let mut index: HashMap<usize, usize> = HashMap::new();
        let mut out: Vec<(MooInst, (usize, usize))> = Vec::new();
        let mut open: Option<usize> = None;
        let mut i: usize = 0;
        assert(names_of(names@) =~= Seq::<Seq<char>>::empty());
        while i < n
            invariant
                i <= n,
                n == chars@.len(),
                chars@ == program@,
                encode_utf8(chars@).len() <= usize::MAX,
                offsets@.len() == n + 1,
                forall|k: int| 0 <= k <= n ==> #[trigger] offsets@[k] == byte_offset(chars@, k),
                scan(program@, 0, Scan::start()) == scan(
                    program@,
                    i as int,
                    Scan { names: names_of(names@), index: index@, program: out@, open },
                ),
            decreases n - i,
        {
            let ghost st = Scan { names: names_of(names@), index: index@, program: out@, open };
            let c = chars[i];
            proof {
                lemma_identifier_at_bounds(chars@, i + 1);
            }
            if c == '(' {
                if open.is_some() {
                    return Err(MooError::new(MooErrorKind::NestedDefinition));
                }
                let (ident, eaten) = match fetch_identifier(chars.as_slice(), i + 1) {
                    Ok(found) => found,
                    Err(e) => {
                        return Err(e);
                    },
                };
                let j = i + 1 + eaten;
                if !(j < n && chars[j] == ')') {
                    return Err(MooError::new(MooErrorKind::ExpectedCloseParen));
                }
                if !(j + 1 < n && chars[j + 1] == ':') {
                    return Err(MooError::new(MooErrorKind::ExpectedColon));
                }
                if !(j + 2 < n && chars[j + 2] == '{') {
                    return Err(MooError::new(MooErrorKind::ExpectedOpenBrace));
                }
                let next = j + 3;
                proof {
                    lemma_byte_offset_monotonic(chars@, i as int, next as int);
                    lemma_byte_offset_bound(chars@, next as int);
                    lemma_name_index_bounds(st.names, ident@, 0);
                }
                let id = resolve(&mut names, ident);
                index.insert(id, out.len());
                out.push((MooInst::FuncStart(id), (offsets[i], offsets[next] - offsets[i])));
                open = Some(id);
                i = next;
            } else if c == '}' {
                match open {
                    Some(id) => {
                        proof {
                            lemma_byte_offset_monotonic(chars@, i as int, i + 1);
                            lemma_byte_offset_bound(chars@, i + 1);
                        }
                        out.push((MooInst::FuncEnd(id), (offsets[i], offsets[i + 1] - offsets[i])));
                        open = None;
                        i = i + 1;
                    },
                    None => {
                        return Err(MooError::new(MooErrorKind::UnknownDefinitionEnd));
                    },
                }
            } else if c == '~' {
                let (ident, eaten) = match fetch_identifier(chars.as_slice(), i + 1) {
                    Ok(found) => found,
                    Err(e) => {
                        return Err(e);
                    },
                };
                let j = i + 1 + eaten;
                if !(j < n && chars[j] == ';') {
                    return Err(MooError::new(MooErrorKind::ExpectedSemicolon));
                }
                let next = j + 1;
                proof {
                    lemma_byte_offset_monotonic(chars@, i as int, next as int);
                    lemma_byte_offset_bound(chars@, next as int);
                    lemma_name_index_bounds(st.names, ident@, 0);
                }
                let id = resolve(&mut names, ident);
                out.push((MooInst::Call(id), (offsets[i], offsets[next] - offsets[i])));
                i = next;
            } else {
                proof {
                    lemma_byte_offset_monotonic(chars@, i as int, i + 1);
                    lemma_byte_offset_bound(chars@, i + 1);
                }
                out.push((MooInst::from_plain_char(c), (offsets[i], offsets[i + 1] - offsets[i])));
                i = i + 1;
            }
        }
        if open.is_some() {
            return Err(MooError::new(MooErrorKind::UnclosedDefinition));
        }
        out.push((MooInst::Halt, (offsets[n], 1)));
        proof {
            lemma_compile_well_formed(program@);
        }
        Ok((out, index))
    }
}

} // verus!
