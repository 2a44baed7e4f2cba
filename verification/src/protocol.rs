//! What a session receives and what it sends: events, messages and the
//! values they carry.
//!
//! Floating-point numbers pass through a session unread. They are carried as
//! their IEEE-754 bit patterns. Values are compared by their bits; where two
//! positions are compared they are compared as doubles, by `same_double`.

use vstd::prelude::*;
use crate::grid::GridNeighbour;
use crate::vec2::Vec2i;

verus! {

/// A pair of doubles, each as its bit pattern.
#[derive(Debug, Clone, Copy, PartialEq, Eq, Structural)]
pub struct Vec2f {
    pub x: u64,
    pub y: u64,
}

/// Whether the bit pattern is that of a double that is no number.
pub open spec fn is_nan(bits: u64) -> bool {
    bits & 0x7ff0_0000_0000_0000 == 0x7ff0_0000_0000_0000 && bits & 0x000f_ffff_ffff_ffff != 0
}

/// Whether two bit patterns are doubles that compare equal: neither is no
/// number, and they are one pattern or both a zero, of either sign.
pub open spec fn same_double(a: u64, b: u64) -> bool {
    !is_nan(a) && !is_nan(b) && (a == b || (a | b) & 0x7fff_ffff_ffff_ffff == 0)
}

/// Whether two doubles, given as their bit patterns, compare equal.
pub fn doubles_equal(a: u64, b: u64) -> (result: bool)
    ensures
        result == same_double(a, b),
{
    let a_nan = a & 0x7ff0_0000_0000_0000 == 0x7ff0_0000_0000_0000 && a & 0x000f_ffff_ffff_ffff
        != 0;
    let b_nan = b & 0x7ff0_0000_0000_0000 == 0x7ff0_0000_0000_0000 && b & 0x000f_ffff_ffff_ffff
        != 0;
    !a_nan && !b_nan && (a == b || (a | b) & 0x7fff_ffff_ffff_ffff == 0)
}

impl Vec2f {
    /// Whether the two points compare equal as pairs of doubles.
    pub open spec fn same_point(self, other: Vec2f) -> bool {
        same_double(self.x, other.x) && same_double(self.y, other.y)
    }

    /// Whether the two points compare equal as pairs of doubles.
    pub fn equals(&self, other: &Vec2f) -> (result: bool)
        ensures
            result == self.same_point(*other),
    {
        doubles_equal(self.x, other.x) && doubles_equal(self.y, other.y)
    }
}

/// A point of the world: its coordinates, the tile that holds it, and the
/// map-click position that holds it.
#[derive(Debug, Clone, Copy, PartialEq, Eq, Structural)]
pub struct WorldPos {
    pub point: Vec2f,
    pub tile: Vec2i,
    pub map_pos: Vec2i,
}

/// A colour by its four channels.
#[derive(Debug, Clone, Copy, PartialEq, Eq, Structural)]
pub struct Color {
    pub r: i32,
    pub g: i32,
    pub b: i32,
    pub a: i32,
}

/// A mouse button.
#[derive(Debug, Clone, Copy, PartialEq, Eq, Structural)]
pub enum Button {
    LeftClick,
    RightClick,
}

impl Button {
    /// The number that stands for the button in a message.
    pub open spec fn code_spec(self) -> i32 {
        match self {
            Button::LeftClick => 1,
            Button::RightClick => 3,
        }
    }

    pub fn code(self) -> (result: i32)
        ensures
            result == self.code_spec(),
    {
        match self {
            Button::LeftClick => 1,
            Button::RightClick => 3,
        }
    }
}

/// The modifier keys held with a click.
#[derive(Debug, Clone, Copy, PartialEq, Eq, Structural)]
pub enum Modifier {
    Unmodified,
    Shift,
    Ctrl,
    Alt,
}

impl Modifier {
    /// The number that stands for the modifier in a message.
    pub open spec fn code_spec(self) -> i32 {
        match self {
            Modifier::Unmodified => 0,
            Modifier::Shift => 1,
            Modifier::Ctrl => 2,
            Modifier::Alt => 4,
        }
    }

    pub fn code(self) -> (result: i32)
        ensures
            result == self.code_spec(),
    {
        match self {
            Modifier::Unmodified => 0,
            Modifier::Shift => 1,
            Modifier::Ctrl => 2,
            Modifier::Alt => 4,
        }
    }
}

/// A value carried by an event or a message.
#[derive(Debug, PartialEq)]
#[allow(inconsistent_fields)]
pub enum Value {
    Nil,
    Int { value: i32 },
    Long { value: i64 },
    Str { value: String },
    Coord { value: Vec2i },
    Bytes { value: Vec<u8> },
    Color { value: Color },
    Float32 { value: u32 },
    Float64 { value: u64 },
    FCoord64 { value: Vec2f },
    List { value: Vec<Value> },
}

/// The mathematical value of a `Value`.
pub enum ValueData {
    Nil,
    Int(i32),
    Long(i64),
    Str(Seq<char>),
    Coord(Vec2i),
    Bytes(Seq<u8>),
    Color(Color),
    Float32(u32),
    Float64(u64),
    FCoord64(Vec2f),
    List(Seq<ValueData>),
}

impl Value {
    /// The mathematical value.
    pub open spec fn data(&self) -> ValueData
        decreases self,
    {
        match self {
            Value::Nil => ValueData::Nil,
            Value::Int { value } => ValueData::Int(*value),
            Value::Long { value } => ValueData::Long(*value),
            Value::Str { value } => ValueData::Str(value@),
            Value::Coord { value } => ValueData::Coord(*value),
            Value::Bytes { value } => ValueData::Bytes(value@),
            Value::Color { value } => ValueData::Color(*value),
            Value::Float32 { value } => ValueData::Float32(*value),
            Value::Float64 { value } => ValueData::Float64(*value),
            Value::FCoord64 { value } => ValueData::FCoord64(*value),
            Value::List { value } => ValueData::List(
                Seq::new(
                    value@.len(),
                    |i: int|
                        if 0 <= i < value@.len() {
                            value@[i].data()
                        } else {
                            ValueData::Nil
                        },
                ),
            ),
        }
    }

    /// Whether this is the string `text`.
    pub fn is_str(&self, text: &str) -> (result: bool)
        ensures
            result == (self.data() == ValueData::Str(text@)),
    {
        match self {
            Value::Str { value } => str_equal(value.as_str(), text),
            _ => false,
        }
    }

    /// Whether this is the integer `number`.
    pub fn is_int(&self, number: i32) -> (result: bool)
        ensures
            result == (self.data() == ValueData::Int(number)),
    {
        match self {
            Value::Int { value } => *value == number,
            _ => false,
        }
    }

    /// Whether this is the coordinate `coord`.
    pub fn is_coord(&self, coord: Vec2i) -> (result: bool)
        ensures
            result == (self.data() == ValueData::Coord(coord)),
    {
        match self {
            Value::Coord { value } => *value == coord,
            _ => false,
        }
    }

    /// Whether this is the list of the two strings `first` and `second`.
    pub fn is_str_pair(&self, first: &str, second: &str) -> (result: bool)
        ensures
            result == (self.data() == ValueData::List(
                seq![ValueData::Str(first@), ValueData::Str(second@)],
            )),
    {
        match self {
            Value::List { value } => {
                let ghost list = self.data()->List_0;
                let ghost wanted = seq![ValueData::Str(first@), ValueData::Str(second@)];
                proof {
                    assert(list.len() == value.len());
                    assert(wanted.len() == 2);
                }
                if value.len() == 2 {
                    let both = value[0].is_str(first) && value[1].is_str(second);
                    proof {
                        assert(list[0] == value@[0].data());
                        assert(list[1] == value@[1].data());
                        assert(wanted[0] == ValueData::Str(first@));
                        assert(wanted[1] == ValueData::Str(second@));
                        if both {
                            assert(list =~= wanted);
                        }
                    }
                    both
                } else {
                    false
                }
            },
            _ => false,
        }
    }

    /// A value equal to this one.
    pub fn duplicate(&self) -> (result: Value)
        ensures
            result.data() == self.data(),
        decreases self,
    {
        match self {
            Value::Nil => Value::Nil,
            Value::Int { value } => Value::Int { value: *value },
            Value::Long { value } => Value::Long { value: *value },
            Value::Str { value } => Value::Str { value: value.clone() },
            Value::Coord { value } => Value::Coord { value: *value },
            Value::Bytes { value } => Value::Bytes { value: value.clone() },
            Value::Color { value } => Value::Color { value: *value },
            Value::Float32 { value } => Value::Float32 { value: *value },
            Value::Float64 { value } => Value::Float64 { value: *value },
            Value::FCoord64 { value } => Value::FCoord64 { value: *value },
            Value::List { value } => {
                let mut copy: Vec<Value> = Vec::new();
                let mut i: usize = 0;
                while i < value.len()
                    invariant
                        i <= value.len(),
                        copy.len() == i,
                        forall|k: int| 0 <= k < i ==> (#[trigger] copy@[k]).data() == value@[k].data(),
                        forall|k: int| 0 <= k < value.len()
                            ==> decreases_to!(self => #[trigger] value@[k]),
                    decreases value.len() - i,
                {
                    copy.push(value[i].duplicate());
                    i += 1;
                }
                let result = Value::List { value: copy };
                proof {
                    assert(result.data()->List_0 =~= self.data()->List_0);
                }
                result
            },
        }
    }
}

impl Clone for Value {
    fn clone(&self) -> (result: Value)
        ensures
            result.data() == self.data(),
    {
        self.duplicate()
    }
}

/// Whether two strings hold the same characters.
pub fn str_equal(a: &str, b: &str) -> (result: bool)
    ensures
        result == (a@ == b@),
{
    if a.unicode_len() != b.unicode_len() {
        return false;
    }
    let n = a.unicode_len();
    let mut i: usize = 0;
    while i < n
        invariant
            i <= n,
            n == a@.len(),
            n == b@.len(),
            forall|k: int| 0 <= k < i ==> a@[k] == b@[k],
        decreases n - i,
    {
        if a.get_char(i) != b.get_char(i) {
            return false;
        }
        i += 1;
    }
    proof {
        assert(a@ =~= b@);
    }
    true
}

/// The mathematical values of a list of values, in order.
pub open spec fn values_data(values: Seq<Value>) -> Seq<ValueData> {
    Seq::new(values.len(), |i: int| values[i].data())
}

/// A list of values equal to `values`.
pub fn duplicate_values(values: &Vec<Value>) -> (result: Vec<Value>)
    ensures
        values_data(result@) == values_data(values@),
{
    let mut copy: Vec<Value> = Vec::new();
    let mut i: usize = 0;
    while i < values.len()
        invariant
            i <= values.len(),
            copy.len() == i,
            forall|k: int| 0 <= k < i ==> (#[trigger] copy@[k]).data() == values@[k].data(),
        decreases values.len() - i,
    {
        copy.push(values[i].duplicate());
        i += 1;
    }
    proof {
        assert(values_data(copy@) =~= values_data(values@));
    }
    copy
}

/// A grid as an event carries it: without segment and revision.
#[derive(Debug, Clone, PartialEq)]
pub struct MapGrid {
    pub id: i64,
    pub position: Vec2i,
    pub heights: Vec<u32>,
    pub tiles: Vec<i32>,
}

/// What a session receives.
#[derive(Debug, Clone, PartialEq)]
#[allow(inconsistent_fields)]
pub enum Event {
    NewWidget { id: i32, kind: String, parent: i32, pargs: Vec<Value>, cargs: Vec<Value> },
    UIMessage { id: i32, msg: String, args: Vec<Value> },
    Destroy { id: i32 },
    AddWidget { id: i32, parent: i32, pargs: Vec<Value> },
    MapTile { id: i32, version: i32, name: String, color: i32 },
    MapGridAdd { grid: MapGrid, neighbours: Vec<GridNeighbour> },
    MapGridUpdate { grid: MapGrid },
    MapGridRemove { id: i64 },
    GobAdd { id: i64, position: WorldPos, angle: u64, name: Option<String> },
    GobRemove { id: i64 },
    GobMove { id: i64, position: WorldPos, angle: u64 },
    ResourceAdd { id: i32, version: i32, name: String },
    WidgetMessage { id: i32, msg: String, args: Vec<Value> },
    Close,
    TaskAdd { name: String, params: Vec<u8> },
    TaskRemove { id: i64 },
    VisualizationAdd,
    SessionData { value: Option<String> },
    GetSessionData,
    Cancel,
}

/// An event with the session it is for and its number in that session.
#[derive(Debug, Clone, PartialEq)]
pub struct Update {
    pub session: i64,
    pub number: i64,
    pub event: Event,
}

/// What is known of a session from outside.
#[derive(Debug, Clone, PartialEq)]
pub struct SessionInfo {
    pub id: i64,
    pub tasks: Vec<String>,
    pub updates: usize,
    pub messages: usize,
}

/// What a session sends.
#[derive(Debug, Clone, PartialEq)]
#[allow(inconsistent_fields)]
pub enum Message {
    Accepted,
    Error { message: String },
    Sessions { value: Vec<SessionInfo> },
    WidgetMessage { sender: i32, kind: String, arguments: Vec<Value> },
    UIMessage { id: i32, kind: String, arguments: Vec<Value> },
    Done { task: String },
    SessionData { value: String },
    GetSessionData,
    LockWidget { value: String },
}

/// The mathematical value of a `SessionInfo`.
pub struct SessionInfoData {
    pub id: i64,
    pub tasks: Seq<Seq<char>>,
    pub updates: usize,
    pub messages: usize,
}

impl View for SessionInfo {
    type V = SessionInfoData;

    open spec fn view(&self) -> SessionInfoData {
        SessionInfoData {
            id: self.id,
            tasks: Seq::new(self.tasks@.len(), |i: int| self.tasks@[i]@),
            updates: self.updates,
            messages: self.messages,
        }
    }
}

/// The views of the session infos of a list, in order.
pub open spec fn session_infos(infos: Seq<SessionInfo>) -> Seq<SessionInfoData> {
    Seq::new(infos.len(), |i: int| infos[i]@)
}

/// The mathematical value of a `Message`.
pub enum MessageData {
    Accepted,
    Error { message: Seq<char> },
    Sessions { value: Seq<SessionInfoData> },
    WidgetMessage { sender: i32, kind: Seq<char>, arguments: Seq<ValueData> },
    UIMessage { id: i32, kind: Seq<char>, arguments: Seq<ValueData> },
    Done { task: Seq<char> },
    SessionData { value: Seq<char> },
    GetSessionData,
    LockWidget { value: Seq<char> },
}

impl View for Message {
    type V = MessageData;

    open spec fn view(&self) -> MessageData {
        match self {
            Message::Accepted => MessageData::Accepted,
            Message::Error { message } => MessageData::Error { message: message@ },
            Message::Sessions { value } => MessageData::Sessions { value: session_infos(value@) },
            Message::WidgetMessage { sender, kind, arguments } => MessageData::WidgetMessage {
                sender: *sender,
                kind: kind@,
                arguments: values_data(arguments@),
            },
            Message::UIMessage { id, kind, arguments } => MessageData::UIMessage {
                id: *id,
                kind: kind@,
                arguments: values_data(arguments@),
            },
            Message::Done { task } => MessageData::Done { task: task@ },
            Message::SessionData { value } => MessageData::SessionData { value: value@ },
            Message::GetSessionData => MessageData::GetSessionData,
            Message::LockWidget { value } => MessageData::LockWidget { value: value@ },
        }
    }
}

/// The view of a message that may be missing.
pub open spec fn message_view(message: Option<Message>) -> Option<MessageData> {
    match message {
        Some(message) => Some(message@),
        None => None,
    }
}

impl Message {
    /// The message that the task named `task` is done.
    pub fn done(task: &str) -> (result: Message)
        ensures
            result@ == (MessageData::Done { task: task@ }),
    {
        Message::Done { task: task.to_owned() }
    }

    /// The message that something went wrong.
    pub fn error(message: &str) -> (result: Message)
        ensures
            result@ == (MessageData::Error { message: message@ }),
    {
        Message::Error { message: message.to_owned() }
    }

    /// A message from the widget `sender`.
    pub fn widget(sender: i32, kind: &str, arguments: Vec<Value>) -> (result: Message)
        ensures
            result@ == (MessageData::WidgetMessage {
                sender,
                kind: kind@,
                arguments: values_data(arguments@),
            }),
    {
        Message::WidgetMessage { sender, kind: kind.to_owned(), arguments }
    }

    /// A message to the user interface.
    pub fn ui(id: i32, kind: &str, arguments: Vec<Value>) -> (result: Message)
        ensures
            result@ == (MessageData::UIMessage {
                id,
                kind: kind@,
                arguments: values_data(arguments@),
            }),
    {
        Message::UIMessage { id, kind: kind.to_owned(), arguments }
    }

    /// Whether the message says that a task is done.
    pub fn is_done(&self) -> (result: bool)
        ensures
            result == (self@ is Done),
    {
        match self {
            Message::Done { .. } => true,
            _ => false,
        }
    }

    /// A click on the map at `map_pos`.
    pub fn click(map_view_id: i32, map_pos: Vec2i, button: Button, modifier: Modifier) -> (result:
        Message)
        ensures
            result@ == click_data(map_view_id, map_pos, button, modifier),
    {
        let mut arguments: Vec<Value> = Vec::new();
        arguments.push(Value::Coord { value: Vec2i { x: 0, y: 0 } });
        arguments.push(Value::Coord { value: map_pos });
        arguments.push(Value::Int { value: button.code() });
        arguments.push(Value::Int { value: modifier.code() });
        proof {
            assert(values_data(arguments@) =~= seq![
                ValueData::Coord(Vec2i { x: 0, y: 0 }),
                ValueData::Coord(map_pos),
                ValueData::Int(button.code_spec()),
                ValueData::Int(modifier.code_spec()),
            ]);
        }
        Message::widget(map_view_id, "click", arguments)
    }
}

/// A click on the map at `map_pos`, as a message.
pub open spec fn click_data(
    map_view_id: i32,
    map_pos: Vec2i,
    button: Button,
    modifier: Modifier,
) -> MessageData {
    MessageData::WidgetMessage {
        sender: map_view_id,
        kind: "click"@,
        arguments: seq![
            ValueData::Coord(Vec2i { x: 0, y: 0 }),
            ValueData::Coord(map_pos),
            ValueData::Int(button.code_spec()),
            ValueData::Int(modifier.code_spec()),
        ],
    }
}

/// Whether `text` begins with `prefix`.
pub open spec fn has_prefix(text: Seq<char>, prefix: Seq<char>) -> bool {
    prefix.len() <= text.len() && text.subrange(0, prefix.len() as int) == prefix
}

/// Whether `text` begins with `prefix`.
pub fn starts_with(text: &str, prefix: &str) -> (result: bool)
    ensures
        result == has_prefix(text@, prefix@),
{
    let n = prefix.unicode_len();
    if n > text.unicode_len() {
        return false;
    }
    let mut i: usize = 0;
    while i < n
        invariant
            i <= n,
            n == prefix@.len(),
            n <= text@.len(),
            forall|k: int| 0 <= k < i ==> text@[k] == prefix@[k],
        decreases n - i,
    {
        if text.get_char(i) != prefix.get_char(i) {
            proof {
                assert(text@.subrange(0, n as int)[i as int] == text@[i as int]);
            }
            return false;
        }
        i += 1;
    }
    proof {
        assert(text@.subrange(0, n as int) =~= prefix@);
    }
    true
}

/// Whether `part` occurs in `text` at the index `at`.
pub open spec fn occurs_at(text: Seq<char>, part: Seq<char>, at: int) -> bool {
    0 <= at && at + part.len() <= text.len() && text.subrange(at, at + part.len()) == part
}

/// Whether `part` occurs somewhere in `text`.
pub open spec fn has_part(text: Seq<char>, part: Seq<char>) -> bool {
    exists|at: int| occurs_at(text, part, at)
}

/// Whether `part` occurs somewhere in `text`.
pub fn contains_str(text: &str, part: &str) -> (result: bool)
    ensures
        result == has_part(text@, part@),
{
    let n = part.unicode_len();
    let m = text.unicode_len();
    if n > m {
        proof {
            assert forall|at: int| !occurs_at(text@, part@, at) by {
            }
        }
        return false;
    }
    let mut at: usize = 0;
    while at <= m - n
        invariant
            n == part@.len(),
            m == text@.len(),
            n <= m,
            at <= m - n + 1,
            forall|k: int| 0 <= k < at ==> !occurs_at(text@, part@, k),
        decreases m - n + 1 - at,
    {
        let mut i: usize = 0;
        let mut same = true;
        while i < n
            invariant_except_break
                same,
            invariant
                i <= n,
                n == part@.len(),
                m == text@.len(),
                at + n <= m,
                forall|k: int| 0 <= k < i ==> text@[at + k] == part@[k],
            ensures
                same ==> i == n,
                !same ==> i < n && text@[at + i] != part@[i as int],
            decreases n - i,
        {
            if text.get_char(at + i) != part.get_char(i) {
                same = false;
                break;
            }
            i += 1;
        }
        if same {
            proof {
                assert(text@.subrange(at as int, at + n) =~= part@);
                assert(occurs_at(text@, part@, at as int));
            }
            return true;
        }
        proof {
            assert(text@.subrange(at as int, at + n)[i as int] == text@[at + i]);
        }
        at += 1;
    }
    proof {
        assert forall|k: int| !occurs_at(text@, part@, k) by {
        }
    }
    false
}

impl Value {
    /// Whether the two values are equal; numbers with a fraction are equal
    /// where their bit patterns are.
    pub fn equals(&self, other: &Value) -> (result: bool)
        ensures
            result == (self.data() == other.data()),
        decreases self,
    {
        match (self, other) {
            (Value::Nil, Value::Nil) => true,
            (Value::Int { value: a }, Value::Int { value: b }) => *a == *b,
            (Value::Long { value: a }, Value::Long { value: b }) => *a == *b,
            (Value::Str { value: a }, Value::Str { value: b }) => *a == *b,
            (Value::Coord { value: a }, Value::Coord { value: b }) => *a == *b,
            (Value::Bytes { value: a }, Value::Bytes { value: b }) => bytes_equal(a, b),
            (Value::Color { value: a }, Value::Color { value: b }) => *a == *b,
            (Value::Float32 { value: a }, Value::Float32 { value: b }) => *a == *b,
            (Value::Float64 { value: a }, Value::Float64 { value: b }) => *a == *b,
            (Value::FCoord64 { value: a }, Value::FCoord64 { value: b }) => *a == *b,
            (Value::List { value: a }, Value::List { value: b }) => {
                let ghost list_a = self.data()->List_0;
                let ghost list_b = other.data()->List_0;
                proof {
                    assert(list_a.len() == a.len());
                    assert(list_b.len() == b.len());
                }
                if a.len() != b.len() {
                    return false;
                }
                let mut i: usize = 0;
                while i < a.len()
                    invariant
                        i <= a.len(),
                        a.len() == b.len(),
                        list_a == self.data()->List_0,
                        list_b == other.data()->List_0,
                        list_a.len() == a.len(),
                        list_b.len() == b.len(),
                        forall|k: int| 0 <= k < a.len() ==> #[trigger] list_a[k] == a@[k].data(),
                        forall|k: int| 0 <= k < b.len() ==> #[trigger] list_b[k] == b@[k].data(),
                        forall|k: int| 0 <= k < i ==> a@[k].data() == b@[k].data(),
                        forall|k: int| 0 <= k < a.len() ==> decreases_to!(self => #[trigger] a@[k]),
                    decreases a.len() - i,
                {
                    if !a[i].equals(&b[i]) {
                        proof {
                            assert(list_a[i as int] != list_b[i as int]);
                        }
                        return false;
                    }
                    i += 1;
                }
                proof {
                    assert(list_a =~= list_b);
                }
                true
            },
            _ => false,
        }
    }
}

/// Whether two lists of bytes hold the same bytes.
pub fn bytes_equal(a: &Vec<u8>, b: &Vec<u8>) -> (result: bool)
    ensures
        result == (a@ == b@),
{
    if a.len() != b.len() {
        return false;
    }
    let mut i: usize = 0;
    while i < a.len()
        invariant
            i <= a.len(),
            a.len() == b.len(),
            forall|k: int| 0 <= k < i ==> a@[k] == b@[k],
        decreases a.len() - i,
    {
        if a[i] != b[i] {
            return false;
        }
        i += 1;
    }
    proof {
        assert(a@ =~= b@);
    }
    true
}

/// Whether two lists of values hold equal values.
pub fn values_equal(a: &Vec<Value>, b: &Vec<Value>) -> (result: bool)
    ensures
        result == (values_data(a@) == values_data(b@)),
{
    if a.len() != b.len() {
        proof {
            assert(values_data(a@).len() != values_data(b@).len());
        }
        return false;
    }
    let mut i: usize = 0;
    while i < a.len()
        invariant
            i <= a.len(),
            a.len() == b.len(),
            forall|k: int| 0 <= k < i ==> a@[k].data() == b@[k].data(),
        decreases a.len() - i,
    {
        if !a[i].equals(&b[i]) {
            proof {
                assert(values_data(a@)[i as int] != values_data(b@)[i as int]);
            }
            return false;
        }
        i += 1;
    }
    proof {
        assert(values_data(a@) =~= values_data(b@));
    }
    true
}

impl SessionInfo {
    /// Whether the two infos are equal.
    pub fn equals(&self, other: &SessionInfo) -> (result: bool)
        ensures
            result == (self@ == other@),
    {
        if self.id != other.id || self.updates != other.updates || self.messages != other.messages
            || self.tasks.len() != other.tasks.len() {
            proof {
                assert(self@.tasks.len() == self.tasks.len());
                assert(other@.tasks.len() == other.tasks.len());
            }
            return false;
        }
        let mut i: usize = 0;
        while i < self.tasks.len()
            invariant
                i <= self.tasks.len(),
                self.tasks.len() == other.tasks.len(),
                forall|k: int| 0 <= k < i ==> self.tasks@[k]@ == other.tasks@[k]@,
            decreases self.tasks.len() - i,
        {
            if self.tasks[i] != other.tasks[i] {
                proof {
                    assert(self@.tasks[i as int] != other@.tasks[i as int]);
                }
                return false;
            }
            i += 1;
        }
        proof {
            assert(self@.tasks =~= other@.tasks);
        }
        true
    }
}

/// Whether two lists of session infos hold equal infos.
pub fn infos_equal(a: &Vec<SessionInfo>, b: &Vec<SessionInfo>) -> (result: bool)
    ensures
        result == (session_infos(a@) == session_infos(b@)),
{
    if a.len() != b.len() {
        proof {
            assert(session_infos(a@).len() != session_infos(b@).len());
        }
        return false;
    }
    let mut i: usize = 0;
    while i < a.len()
        invariant
            i <= a.len(),
            a.len() == b.len(),
            forall|k: int| 0 <= k < i ==> a@[k]@ == b@[k]@,
        decreases a.len() - i,
    {
        if !a[i].equals(&b[i]) {
            proof {
                assert(session_infos(a@)[i as int] != session_infos(b@)[i as int]);
            }
            return false;
        }
        i += 1;
    }
    proof {
        assert(session_infos(a@) =~= session_infos(b@));
    }
    true
}

impl Message {
    /// Whether the two messages are equal.
    pub fn equals(&self, other: &Message) -> (result: bool)
        ensures
            result == (self@ == other@),
    {
        match (self, other) {
            (Message::Accepted, Message::Accepted) => true,
            (Message::Error { message: a }, Message::Error { message: b }) => *a == *b,
            (Message::Sessions { value: a }, Message::Sessions { value: b }) => infos_equal(a, b),
            (
                Message::WidgetMessage { sender: a, kind: ka, arguments: xa },
                Message::WidgetMessage { sender: b, kind: kb, arguments: xb },
            ) => *a == *b && *ka == *kb && values_equal(xa, xb),
            (
                Message::UIMessage { id: a, kind: ka, arguments: xa },
                Message::UIMessage { id: b, kind: kb, arguments: xb },
            ) => *a == *b && *ka == *kb && values_equal(xa, xb),
            (Message::Done { task: a }, Message::Done { task: b }) => *a == *b,
            (Message::SessionData { value: a }, Message::SessionData { value: b }) => *a == *b,
            (Message::GetSessionData, Message::GetSessionData) => true,
            (Message::LockWidget { value: a }, Message::LockWidget { value: b }) => *a == *b,
            _ => false,
        }
    }
}

} // verus!
