//! Scripts and the values of the scripting language.

use crate::numeric::{Real32, Real64};
use crate::parser::{Decode, Failure, ParseError, ParseErrorKind, Parser, PathStep, Prefix};
use crate::parser::{
    advanced, agrees, at_field, at_index, end_of, fail, failed, field, prepended, seen, under,
    value_of, views,
};
use crate::parser::{ends_within, lemma_same_later, same_from};
use crate::parser::{
    lemma_reads_bool, lemma_reads_counted, lemma_reads_real32, lemma_reads_real64,
    lemma_reads_string, lemma_reads_u32, lemma_reads_u8, lemma_reads_u8x4,
};
use crate::parser::{
    spec_bool, spec_counted, spec_real32, spec_real64, spec_string, spec_u32, spec_u8, spec_u8x4,
};
use crate::tags::{EntryView, Registry};
use vstd::prelude::*;

verus! {

/// The way a script plays a sound.
#[derive(Clone, Copy, Debug, PartialEq, Eq, Structural)]
pub enum ScriptSoundKind {
    Normal,
    Loop,
    Unknown3,
}

impl View for ScriptSoundKind {
    type V = ScriptSoundKind;

    open spec fn view(&self) -> ScriptSoundKind {
        *self
    }
}

impl ScriptSoundKind {
    /// The number that stands for this value in a scene file.
    pub open spec fn code(self) -> u32 {
        match self {
            ScriptSoundKind::Normal => 1,
            ScriptSoundKind::Loop => 2,
            ScriptSoundKind::Unknown3 => 3,
        }
    }
}

impl Decode for ScriptSoundKind {
    open spec fn spec_parse(bytes: Seq<u8>, at: int) -> Result<(ScriptSoundKind, int), Failure> {
        match spec_u32(bytes, at) {
            Err(failure) => Err(failure),
            Ok((code, end)) => if code == 1 {
                Ok((ScriptSoundKind::Normal, end))
            } else if code == 2 {
                Ok((ScriptSoundKind::Loop, end))
            } else if code == 3 {
                Ok((ScriptSoundKind::Unknown3, end))
            } else {
                fail(ParseErrorKind::NoReprIntMatch(code as u64), at)
            },
        }
    }

    fn parse(parser: &mut Parser) -> (got: Result<ScriptSoundKind, ParseError>) {
        let start = parser.position();
        let code = parser.read_u32()?;
        match code {
            1 => Ok(ScriptSoundKind::Normal),
            2 => Ok(ScriptSoundKind::Loop),
            3 => Ok(ScriptSoundKind::Unknown3),
            _ => parser.fail_at(ParseErrorKind::NoReprIntMatch(code as u64), start),
        }
    }

    proof fn lemma_reads_ahead(a: Seq<u8>, b: Seq<u8>, at: int) {
        lemma_reads_u32(a, b, at);
    }
}

/// A sound that a script has loaded.
#[derive(Clone, Debug)]
pub struct ScriptSound {
    pub kind: ScriptSoundKind,
    pub name: String,
}

/// What a script sound holds.
pub struct ScriptSoundView {
    pub kind: ScriptSoundKind,
    pub name: Seq<char>,
}

impl View for ScriptSound {
    type V = ScriptSoundView;

    open spec fn view(&self) -> ScriptSoundView {
        ScriptSoundView {
            kind: self.kind,
            name: self.name@,
        }
    }
}

/// What reading a script sound at `at` gives: its parts one after the other.
#[verifier::opaque]
pub open spec fn spec_script_sound(bytes: Seq<u8>, at: int) -> Result<
    (ScriptSoundView, int),
    Failure,
> {
    let kind = field(ScriptSoundKind::spec_parse(bytes, at), "kind");
    let name = field(spec_string(bytes, end_of(kind), Prefix::U32), "name");
    if kind is Err {
        failed(kind)
    } else if name is Err {
        failed(name)
    } else {
        Ok(
            (
                ScriptSoundView {
                    kind: value_of(kind),
                    name: value_of(name),
                },
                end_of(name),
            ),
        )
    }
}

impl Decode for ScriptSound {
    open spec fn spec_parse(bytes: Seq<u8>, at: int) -> Result<(ScriptSoundView, int), Failure> {
        spec_script_sound(bytes, at)
    }

    fn parse(parser: &mut Parser) -> (got: Result<ScriptSound, ParseError>) {
        proof {
            reveal(spec_script_sound);
        }
        let kind = at_field(ScriptSoundKind::parse(parser), "kind")?;
        let name = at_field(parser.read_string(Prefix::U32), "name")?;
        Ok(ScriptSound { kind, name })
    }

    proof fn lemma_reads_ahead(a: Seq<u8>, b: Seq<u8>, at: int) {
        reveal(spec_script_sound);
        ScriptSoundKind::lemma_reads_ahead(a, b, at);
        let kind = field(ScriptSoundKind::spec_parse(a, at), "kind");
        let so_far = kind is Ok;
        if so_far {
            lemma_same_later(a, b, at, end_of(kind));
            lemma_reads_string(a, b, end_of(kind), Prefix::U32);
        }
    }
}

/// A value of the scripting language.
#[derive(Debug)]
pub enum LuaValue {
    Boolean(bool),
    Number(Real64),
    Table(LuaTable),
    String(String),
}

/// A key of a table and the value that goes with it.
#[derive(Debug)]
pub struct LuaEntry {
    pub key: LuaValue,
    pub value: LuaValue,
}

/// A table of the scripting language: its entries in the order of the
/// file.
#[derive(Debug)]
pub struct LuaTable(pub Vec<LuaEntry>);

/// What a value of the scripting language holds.
pub enum LuaValueView {
    Boolean(bool),
    Number(Real64),
    Table(Seq<LuaEntryView>),
    String(Seq<char>),
}

/// What an entry of a table holds.
pub struct LuaEntryView {
    pub key: LuaValueView,
    pub value: LuaValueView,
}

impl LuaValue {
    /// What the value holds.
    pub open spec fn model(self) -> LuaValueView
        decreases self,
    {
        match self {
            LuaValue::Boolean(truth) => LuaValueView::Boolean(truth),
            LuaValue::Number(number) => LuaValueView::Number(number),
            LuaValue::Table(table) => LuaValueView::Table(table.model()),
            LuaValue::String(text) => LuaValueView::String(text@),
        }
    }
}

impl LuaTable {
    /// What the entries of the table hold.
    pub open spec fn model(self) -> Seq<LuaEntryView>
        decreases self,
    {
        Seq::new(
            self.0@.len(),
            |i: int|
                if 0 <= i < self.0@.len() {
                    LuaEntryView { key: self.0@[i].key.model(), value: self.0@[i].value.model() }
                } else {
                    arbitrary()
                },
        )
    }
}

impl View for LuaValue {
    type V = LuaValueView;

    open spec fn view(&self) -> LuaValueView {
        self.model()
    }
}

impl View for LuaEntry {
    type V = LuaEntryView;

    open spec fn view(&self) -> LuaEntryView {
        LuaEntryView { key: self.key.model(), value: self.value.model() }
    }
}

impl View for LuaTable {
    type V = Seq<LuaEntryView>;

    open spec fn view(&self) -> Seq<LuaEntryView> {
        self.model()
    }
}

/// The value of the scripting language at `at`: a number in four bytes
/// that says what the value is, then the value. 1 stands for a truth
/// value, 3 for a number, 4 for a string and 5 for a table.
pub open spec fn spec_lua_value(bytes: Seq<u8>, at: int) -> Result<(LuaValueView, int), Failure>
    decreases bytes.len() - at, 0nat,
{
    match spec_u32(bytes, at) {
        Err(failure) => Err(failure),
        Ok((tag, next)) => if tag == 1 {
            match spec_bool(bytes, next) {
                Ok((truth, end)) => Ok((LuaValueView::Boolean(truth), end)),
                Err(failure) => Err(failure),
            }
        } else if tag == 3 {
            match spec_real64(bytes, next) {
                Ok((number, end)) => Ok((LuaValueView::Number(number), end)),
                Err(failure) => Err(failure),
            }
        } else if tag == 4 {
            match spec_string(bytes, next, Prefix::U32) {
                Ok((text, end)) => Ok((LuaValueView::String(text), end)),
                Err(failure) => Err(failure),
            }
        } else if tag == 5 {
            match spec_lua_entries(bytes, next, 0) {
                Ok((entries, end)) => Ok((LuaValueView::Table(entries), end)),
                Err(failure) => Err(failure),
            }
        } else {
            fail(ParseErrorKind::NoReprIntMatch(tag as u64), at)
        },
    }
}

/// The entries of a table at `at`, of which `from` entries came before:
/// entry after entry, each a key and a value, until the number 0 in four
/// bytes stands where a key would begin.
pub open spec fn spec_lua_entries(bytes: Seq<u8>, at: int, from: nat) -> Result<
    (Seq<LuaEntryView>, int),
    Failure,
>
    decreases bytes.len() - at, 1nat,
{
    match spec_u32(bytes, at) {
        Err(failure) => Err(failure),
        Ok((tag, next)) => if tag == 0 {
            Ok((Seq::empty(), next))
        } else {
            match under(spec_lua_value(bytes, at), PathStep::Index(from as usize)) {
                Err(failure) => Err(failure),
                Ok((key, middle)) => if !advanced(bytes, at, middle) {
                    fail(ParseErrorKind::UnexpectedEnd, at)
                } else {
                    match under(spec_lua_value(bytes, middle), PathStep::Index(from as usize)) {
                        Err(failure) => Err(failure),
                        Ok((value, behind)) => if !advanced(bytes, middle, behind) {
                            fail(ParseErrorKind::UnexpectedEnd, at)
                        } else {
                            match spec_lua_entries(bytes, behind, from + 1) {
                                Err(failure) => Err(failure),
                                Ok((rest, end)) => Ok(
                                    (seq![LuaEntryView { key, value }] + rest, end),
                                ),
                            }
                        },
                    }
                },
            }
        },
    }
}

/// Reading a value of the scripting language looks at the bytes from `at`
/// on and at no others.
pub proof fn lemma_reads_lua_value(a: Seq<u8>, b: Seq<u8>, at: int)
    requires
        same_from(a, b, at),
    ensures
        spec_lua_value(a, at) == spec_lua_value(b, at),
        ends_within(spec_lua_value(a, at), a, at),
    decreases a.len() - at, 0nat,
{
    lemma_reads_u32(a, b, at);
    if let Ok((tag, next)) = spec_u32(a, at) {
        lemma_same_later(a, b, at, next);
        lemma_reads_bool(a, b, next);
        lemma_reads_real64(a, b, next);
        lemma_reads_string(a, b, next, Prefix::U32);
        if tag == 5 {
            lemma_reads_lua_entries(a, b, next, 0);
        }
    }
}

/// Reading the entries of a table looks at the bytes from `at` on and at
/// no others.
pub proof fn lemma_reads_lua_entries(a: Seq<u8>, b: Seq<u8>, at: int, from: nat)
    requires
        same_from(a, b, at),
    ensures
        spec_lua_entries(a, at, from) == spec_lua_entries(b, at, from),
        ends_within(spec_lua_entries(a, at, from), a, at),
    decreases a.len() - at, 1nat,
{
    reveal(same_from);
    lemma_reads_u32(a, b, at);
    if let Ok((tag, next)) = spec_u32(a, at) {
        if tag != 0 {
            lemma_reads_lua_value(a, b, at);
            if let Ok((key, middle)) = spec_lua_value(a, at) {
                if advanced(a, at, middle) {
                    lemma_same_later(a, b, at, middle);
                    lemma_reads_lua_value(a, b, middle);
                    if let Ok((value, behind)) = spec_lua_value(a, middle) {
                        if advanced(a, middle, behind) {
                            lemma_same_later(a, b, at, behind);
                            lemma_reads_lua_entries(a, b, behind, from + 1);
                        }
                    }
                }
            }
        }
    }
}

/// Reads a value of the scripting language.
pub fn parse_lua_value(parser: &mut Parser) -> (got: Result<LuaValue, ParseError>)
    ensures
        final(parser).input() == old(parser).input(),
        agrees(
            seen(got),
            old(parser).cursor(),
            final(parser).cursor(),
            spec_lua_value(old(parser).input(), old(parser).cursor()),
        ),
        got is Ok ==> advanced(old(parser).input(), old(parser).cursor(), final(parser).cursor()),
    decreases old(parser).input().len() - old(parser).cursor(), 0nat,
{
    let start = parser.position();
    let tag = parser.read_u32()?;
    let value = match tag {
        1 => LuaValue::Boolean(parser.read_bool()?),
        3 => LuaValue::Number(parser.read_real64()?),
        4 => LuaValue::String(parser.read_string(Prefix::U32)?),
        5 => LuaValue::Table(parse_lua_table(parser)?),
        other => {
            return parser.fail_at(ParseErrorKind::NoReprIntMatch(other as u64), start);
        },
    };
    let _end = parser.position();
    Ok(value)
}

/// Reads the entries of a table up to the number 0 that ends them.
pub fn parse_lua_entries(parser: &mut Parser) -> (got: Result<Vec<LuaEntry>, ParseError>)
    ensures
        final(parser).input() == old(parser).input(),
        old(parser).cursor() <= final(parser).cursor(),
        match got {
            Ok(entries) => spec_lua_entries(old(parser).input(), old(parser).cursor(), 0) == Ok::<
                (Seq<LuaEntryView>, int),
                Failure,
            >((views(entries@), final(parser).cursor())),
            Err(error) => spec_lua_entries(old(parser).input(), old(parser).cursor(), 0) == Err::<
                (Seq<LuaEntryView>, int),
                Failure,
            >(error@) && final(parser).cursor() == error@.offset,
        },
    decreases old(parser).input().len() - old(parser).cursor(), 1nat,
{
    let ghost bytes = parser.input();
    let ghost start = parser.cursor();
    let mut done: Vec<LuaEntry> = Vec::new();
    assert(views(done@) + value_of(spec_lua_entries(bytes, start, 0)) =~= value_of(
        spec_lua_entries(bytes, start, 0),
    ));
    loop
        invariant
            parser.input() == bytes,
            bytes == old(parser).input(),
            start == old(parser).cursor(),
            start <= parser.cursor(),
            spec_lua_entries(bytes, start, 0) == prepended(
                views(done@),
                spec_lua_entries(bytes, parser.cursor(), done@.len()),
            ),
        decreases bytes.len() - parser.cursor(),
    {
        let _here = parser.position();
        let lua_type = parser.peek_u32()?;
        if lua_type == 0 {
            let _ = parser.read_u32()?;
            assert(views(done@) + Seq::<LuaEntryView>::empty() =~= views(done@));
            return Ok(done);
        }
        let index = done.len();
        let ghost before = views(done@);
        let key = at_index(parse_lua_value(parser), index)?;
        let _middle = parser.position();
        let value = at_index(parse_lua_value(parser), index)?;
        let _behind = parser.position();
        let ghost entry = LuaEntryView { key: key@, value: value@ };
        done.push(LuaEntry { key, value });
        proof {
            assert(views(done@) =~= before.push(entry));
            let rest = spec_lua_entries(bytes, _behind as int, (index + 1) as nat);
            if rest is Ok {
                assert(before + (seq![entry] + value_of(rest)) =~= before.push(entry) + value_of(
                    rest,
                ));
            }
        }
    }
}

/// Reads a table of the scripting language.
pub fn parse_lua_table(parser: &mut Parser) -> (got: Result<LuaTable, ParseError>)
    ensures
        final(parser).input() == old(parser).input(),
        agrees(
            seen(got),
            old(parser).cursor(),
            final(parser).cursor(),
            spec_lua_entries(old(parser).input(), old(parser).cursor(), 0),
        ),
    decreases old(parser).input().len() - old(parser).cursor(), 2nat,
{
    let entries = parse_lua_entries(parser)?;
    assert(entries@.len() == views(entries@).len());
    assert(LuaTable(entries)@ =~= views(entries@));
    Ok(LuaTable(entries))
}

/// A script and what it has in memory.
#[derive(Debug)]
pub struct Script {
    pub z_u8_start: u8,
    pub path: String,
    pub params: Registry,
    pub last_update: Real32,
    pub time: Real32,
    pub z_u8_4: [u8; 4],
    pub table: LuaTable,
    pub entity_handles: Vec<u32>,
    pub sounds: Vec<ScriptSound>,
}

/// What a script holds.
pub struct ScriptView {
    pub z_u8_start: u8,
    pub path: Seq<char>,
    pub params: Seq<EntryView>,
    pub last_update: Real32,
    pub time: Real32,
    pub z_u8_4: [u8; 4],
    pub table: Seq<LuaEntryView>,
    pub entity_handles: Seq<u32>,
    pub sounds: Seq<ScriptSoundView>,
}

impl View for Script {
    type V = ScriptView;

    open spec fn view(&self) -> ScriptView {
        ScriptView {
            z_u8_start: self.z_u8_start,
            path: self.path@,
            params: self.params@,
            last_update: self.last_update,
            time: self.time,
            z_u8_4: self.z_u8_4,
            table: self.table@,
            entity_handles: views(self.entity_handles@),
            sounds: views(self.sounds@),
        }
    }
}

/// What reading a script at `at` gives: its parts one after the other.
#[verifier::opaque]
pub open spec fn spec_script(bytes: Seq<u8>, at: int) -> Result<(ScriptView, int), Failure> {
    let z_u8_start = field(spec_u8(bytes, at), "z_u8_start");
    let path = field(spec_string(bytes, end_of(z_u8_start), Prefix::U32), "path");
    let params = field(Registry::spec_parse(bytes, end_of(path)), "params");
    let last_update = field(spec_real32(bytes, end_of(params)), "last_update");
    let time = field(spec_real32(bytes, end_of(last_update)), "time");
    let z_u8_4 = field(spec_u8x4(bytes, end_of(time)), "z_u8_4");
    let table = field(spec_lua_entries(bytes, end_of(z_u8_4), 0), "table");
    let entity_handles = field(
        spec_counted::<u32>(bytes, end_of(table), Prefix::U32),
        "entity_handles",
    );
    let sounds = field(
        spec_counted::<ScriptSound>(bytes, end_of(entity_handles), Prefix::U32),
        "sounds",
    );
    if z_u8_start is Err {
        failed(z_u8_start)
    } else if path is Err {
        failed(path)
    } else if params is Err {
        failed(params)
    } else if last_update is Err {
        failed(last_update)
    } else if time is Err {
        failed(time)
    } else if z_u8_4 is Err {
        failed(z_u8_4)
    } else if table is Err {
        failed(table)
    } else if entity_handles is Err {
        failed(entity_handles)
    } else if sounds is Err {
        failed(sounds)
    } else {
        Ok(
            (
                ScriptView {
                    z_u8_start: value_of(z_u8_start),
                    path: value_of(path),
                    params: value_of(params),
                    last_update: value_of(last_update),
                    time: value_of(time),
                    z_u8_4: value_of(z_u8_4),
                    table: value_of(table),
                    entity_handles: value_of(entity_handles),
                    sounds: value_of(sounds),
                },
                end_of(sounds),
            ),
        )
    }
}

impl Decode for Script {
    open spec fn spec_parse(bytes: Seq<u8>, at: int) -> Result<(ScriptView, int), Failure> {
        spec_script(bytes, at)
    }

    fn parse(parser: &mut Parser) -> (got: Result<Script, ParseError>) {
        proof {
            reveal(spec_script);
        }
        let z_u8_start = at_field(parser.read_u8(), "z_u8_start")?;
        let path = at_field(parser.read_string(Prefix::U32), "path")?;
        let params = at_field(Registry::parse(parser), "params")?;
        let last_update = at_field(parser.read_real32(), "last_update")?;
        let time = at_field(parser.read_real32(), "time")?;
        let z_u8_4 = at_field(parser.read_u8x4(), "z_u8_4")?;
        let table = at_field(parse_lua_table(parser), "table")?;
        let entity_handles = at_field(parser.read_counted::<u32>(Prefix::U32), "entity_handles")?;
        let sounds = at_field(parser.read_counted::<ScriptSound>(Prefix::U32), "sounds")?;
        Ok(
            Script {
                z_u8_start,
                path,
                params,
                last_update,
                time,
                z_u8_4,
                table,
                entity_handles,
                sounds,
            },
        )
    }

    proof fn lemma_reads_ahead(a: Seq<u8>, b: Seq<u8>, at: int) {
        reveal(spec_script);
        lemma_reads_u8(a, b, at);
        let z_u8_start = field(spec_u8(a, at), "z_u8_start");
        let so_far = z_u8_start is Ok;
        if so_far {
            lemma_same_later(a, b, at, end_of(z_u8_start));
            lemma_reads_string(a, b, end_of(z_u8_start), Prefix::U32);
        }
        let path = field(spec_string(a, end_of(z_u8_start), Prefix::U32), "path");
        let so_far = so_far && path is Ok;
        if so_far {
            lemma_same_later(a, b, at, end_of(path));
            Registry::lemma_reads_ahead(a, b, end_of(path));
        }
        let params = field(Registry::spec_parse(a, end_of(path)), "params");
        let so_far = so_far && params is Ok;
        if so_far {
            lemma_same_later(a, b, at, end_of(params));
            lemma_reads_real32(a, b, end_of(params));
        }
        let last_update = field(spec_real32(a, end_of(params)), "last_update");
        let so_far = so_far && last_update is Ok;
        if so_far {
            lemma_same_later(a, b, at, end_of(last_update));
            lemma_reads_real32(a, b, end_of(last_update));
        }
        let time = field(spec_real32(a, end_of(last_update)), "time");
        let so_far = so_far && time is Ok;
        if so_far {
            lemma_same_later(a, b, at, end_of(time));
            lemma_reads_u8x4(a, b, end_of(time));
        }
        let z_u8_4 = field(spec_u8x4(a, end_of(time)), "z_u8_4");
        let so_far = so_far && z_u8_4 is Ok;
        if so_far {
            lemma_same_later(a, b, at, end_of(z_u8_4));
            lemma_reads_lua_entries(a, b, end_of(z_u8_4), 0);
        }
        let table = field(spec_lua_entries(a, end_of(z_u8_4), 0), "table");
        let so_far = so_far && table is Ok;
        if so_far {
            lemma_same_later(a, b, at, end_of(table));
            lemma_reads_counted::<u32>(a, b, end_of(table), Prefix::U32);
        }
        let entity_handles = field(
            spec_counted::<u32>(a, end_of(table), Prefix::U32),
            "entity_handles",
        );
        let so_far = so_far && entity_handles is Ok;
        if so_far {
            lemma_same_later(a, b, at, end_of(entity_handles));
            lemma_reads_counted::<ScriptSound>(a, b, end_of(entity_handles), Prefix::U32);
        }
    }
}

} // verus!
