use vstd::prelude::*;
use crate::error::{ErrorKind, Failure, ParseError};
use crate::lexer::{
    data_keyword, keyword_at, layout_end, lemma_layout_end, loop_keyword, matches_at,
    parse_identifier, save_keyword, trim_comments_and_whitespace,
};
use crate::position::{lemma_run_end, run_end, scan, CharClass, Position};
use crate::value::{lemma_value_progress, parse_value, value_spec, Value, ValueView};

verus! {

/// A loop: its column tags, and its values row after row in one flat list.
#[derive(Debug, PartialEq)]
pub struct Loop {
    pub header: Vec<String>,
    pub data: Vec<Value>,
}

/// What a data item holds: a single value or a loop.
#[derive(Debug, PartialEq)]
pub enum MultiValue {
    Value(Value),
    Loop(Loop),
}

/// A tag (without its leading underscore) and its content.
#[derive(Debug, PartialEq)]
pub struct DataItem {
    pub name: String,
    pub content: MultiValue,
}

/// A named group of data items, opened by `save_<name>` and closed by a bare `save_`.
#[derive(Debug, PartialEq)]
pub struct SaveFrame {
    pub name: String,
    pub items: Vec<DataItem>,
}

#[derive(Debug, PartialEq)]
pub enum Item {
    DataItem(DataItem),
    SaveFrame(SaveFrame),
}

/// A data block: the name after `data_` and its items in order.
#[derive(Debug, PartialEq)]
pub struct DataBlock {
    pub name: String,
    pub items: Vec<Item>,
}

pub struct LoopView {
    pub header: Seq<Seq<char>>,
    pub data: Seq<ValueView>,
}

pub enum MultiValueView {
    Value(ValueView),
    Loop(LoopView),
}

pub struct DataItemView {
    pub name: Seq<char>,
    pub content: MultiValueView,
}

pub struct SaveFrameView {
    pub name: Seq<char>,
    pub items: Seq<DataItemView>,
}

pub enum ItemView {
    DataItem(DataItemView),
    SaveFrame(SaveFrameView),
}

pub struct DataBlockView {
    pub name: Seq<char>,
    pub items: Seq<ItemView>,
}

pub open spec fn strings_view(v: Seq<String>) -> Seq<Seq<char>> {
    v.map_values(|x: String| x@)
}

pub open spec fn values_view(v: Seq<Value>) -> Seq<ValueView> {
    v.map_values(|x: Value| x@)
}

pub open spec fn data_items_view(v: Seq<DataItem>) -> Seq<DataItemView> {
    v.map_values(|x: DataItem| x@)
}

pub open spec fn items_view(v: Seq<Item>) -> Seq<ItemView> {
    v.map_values(|x: Item| x@)
}

impl View for Loop {
    type V = LoopView;

    open spec fn view(&self) -> LoopView {
        LoopView { header: strings_view(self.header@), data: values_view(self.data@) }
    }
}

impl View for MultiValue {
    type V = MultiValueView;

    open spec fn view(&self) -> MultiValueView {
        match self {
            MultiValue::Value(v) => MultiValueView::Value(v@),
            MultiValue::Loop(l) => MultiValueView::Loop(l@),
        }
    }
}

impl View for DataItem {
    type V = DataItemView;

    open spec fn view(&self) -> DataItemView {
        DataItemView { name: self.name@, content: self.content@ }
    }
}

impl View for SaveFrame {
    type V = SaveFrameView;

    open spec fn view(&self) -> SaveFrameView {
        SaveFrameView { name: self.name@, items: data_items_view(self.items@) }
    }
}

impl View for Item {
    type V = ItemView;

    open spec fn view(&self) -> ItemView {
        match self {
            Item::DataItem(d) => ItemView::DataItem(d@),
            Item::SaveFrame(f) => ItemView::SaveFrame(f@),
        }
    }
}

impl View for DataBlock {
    type V = DataBlockView;

    open spec fn view(&self) -> DataBlockView {
        DataBlockView { name: self.name@, items: items_view(self.items@) }
    }
}

/// Where the name that starts at `i` ends.
pub open spec fn name_end(s: Seq<char>, i: int) -> int {
    run_end(s, i, CharClass::NonSpace)
}

/// A `loop_` at `i` that no other character follows before whitespace or the end.
pub open spec fn loop_at(s: Seq<char>, i: int) -> bool {
    keyword_at(s, i, loop_keyword()) && name_end(s, i + 5) == i + 5
}

/// A `save_` at `i` that no other character follows before whitespace or the end.
pub open spec fn bare_save_at(s: Seq<char>, i: int) -> bool {
    keyword_at(s, i, save_keyword()) && name_end(s, i + 5) == i + 5
}

/// A `save_` at `i` with a non-empty name after it.
pub open spec fn frame_open_at(s: Seq<char>, i: int) -> bool {
    keyword_at(s, i, save_keyword()) && name_end(s, i + 5) > i + 5
}

/// The tags of a loop header from `i` on, and where they end.
pub open spec fn header_spec(s: Seq<char>, i: int) -> (Seq<Seq<char>>, int)
    decreases s.len() - i,
{
    if 0 <= i < s.len() && s[i] == '_' {
        let e = name_end(s, i + 1);
        proof {
            lemma_run_end(s, i + 1, CharClass::NonSpace);
            lemma_layout_end(s, e);
        }
        let k = layout_end(s, e);
        (seq![s.subrange(i + 1, e)] + header_spec(s, k).0, header_spec(s, k).1)
    } else {
        (seq![], i)
    }
}

/// The values of a loop from `i` on, as many as can be read, and where they end.
pub open spec fn values_spec(s: Seq<char>, i: int) -> (Seq<ValueView>, int)
    decreases s.len() - i,
{
    if 0 <= i <= s.len() && value_spec(s, i) is Ok {
        let (v, e) = value_spec(s, i)->Ok_0;
        proof {
            lemma_value_progress(s, i);
            lemma_layout_end(s, e);
        }
        let k = layout_end(s, e);
        (seq![v] + values_spec(s, k).0, values_spec(s, k).1)
    } else {
        (seq![], i)
    }
}

/// The data item at `i`: `_` and a tag, then a loop or a single value.
pub open spec fn data_item_spec(s: Seq<char>, i: int) -> Result<(DataItemView, int), Failure> {
    if !(0 <= i < s.len() && s[i] == '_') {
        Err(Failure { kind: ErrorKind::MissingDataItemMarker, start: i, end: i })
    } else {
        let e = name_end(s, i + 1);
        let name = s.subrange(i + 1, e);
        let j = layout_end(s, e);
        if loop_at(s, j) {
            let h = header_spec(s, layout_end(s, j + 5));
            let vs = values_spec(s, h.1);
            Ok(
                (
                    DataItemView {
                        name,
                        content: MultiValueView::Loop(LoopView { header: h.0, data: vs.0 }),
                    },
                    vs.1,
                ),
            )
        } else {
            match value_spec(s, j) {
                Ok((v, ve)) => Ok((DataItemView { name, content: MultiValueView::Value(v) }, ve)),
                Err(_) => Err(Failure { kind: ErrorKind::MissingValueOrLoop, start: i, end: j }),
            }
        }
    }
}

pub proof fn lemma_header_bounds(s: Seq<char>, i: int)
    requires
        0 <= i <= s.len(),
    ensures
        i <= header_spec(s, i).1 <= s.len(),
    decreases s.len() - i,
{
    if i < s.len() && s[i] == '_' {
        let e = name_end(s, i + 1);
        lemma_run_end(s, i + 1, CharClass::NonSpace);
        lemma_layout_end(s, e);
        lemma_header_bounds(s, layout_end(s, e));
    }
}

pub proof fn lemma_values_bounds(s: Seq<char>, i: int)
    requires
        0 <= i <= s.len(),
    ensures
        i <= values_spec(s, i).1 <= s.len(),
    decreases s.len() - i,
{
    if value_spec(s, i) is Ok {
        let e = value_spec(s, i)->Ok_0.1;
        lemma_value_progress(s, i);
        lemma_layout_end(s, e);
        lemma_values_bounds(s, layout_end(s, e));
    }
}

/// A data item that is read consumes at least one character.
pub proof fn lemma_data_item_progress(s: Seq<char>, i: int)
    requires
        0 <= i <= s.len(),
    ensures
        data_item_spec(s, i) is Ok ==> i < data_item_spec(s, i)->Ok_0.1 <= s.len(),
{
    if 0 <= i < s.len() && s[i] == '_' {
        let e = name_end(s, i + 1);
        lemma_run_end(s, i + 1, CharClass::NonSpace);
        lemma_layout_end(s, e);
        let j = layout_end(s, e);
        if loop_at(s, j) {
            lemma_layout_end(s, j + 5);
            let k = layout_end(s, j + 5);
            lemma_header_bounds(s, k);
            lemma_values_bounds(s, header_spec(s, k).1);
        } else {
            lemma_value_progress(s, j);
        }
    }
}

/// The data items of a save frame from `i` on, and where they end.
pub open spec fn frame_items_spec(s: Seq<char>, i: int) -> Result<
    (Seq<DataItemView>, int),
    Failure,
>
    decreases s.len() - i,
{
    if 0 <= i < s.len() && s[i] == '_' {
        match data_item_spec(s, i) {
            Ok((d, e)) => {
                proof {
                    lemma_data_item_progress(s, i);
                    lemma_layout_end(s, e);
                }
                match frame_items_spec(s, layout_end(s, e)) {
                    Ok((ds, end)) => Ok((seq![d] + ds, end)),
                    Err(f) => Err(f),
                }
            },
            Err(f) => Err(f),
        }
    } else {
        Ok((seq![], i))
    }
}

/// The item at `i`: a save frame where `save_` and a name stand there, else a data item.
pub open spec fn item_spec(s: Seq<char>, i: int) -> Result<(ItemView, int), Failure> {
    if frame_open_at(s, i) {
        let e = name_end(s, i + 5);
        let name = s.subrange(i + 5, e);
        match frame_items_spec(s, layout_end(s, e)) {
            Ok((ds, m)) => if bare_save_at(s, m) {
                Ok((ItemView::SaveFrame(SaveFrameView { name, items: ds }), m + 5))
            } else {
                Err(Failure { kind: ErrorKind::UnterminatedSaveFrame, start: i, end: m })
            },
            Err(f) => Err(f),
        }
    } else {
        match data_item_spec(s, i) {
            Ok((d, e)) => Ok((ItemView::DataItem(d), e)),
            Err(f) => Err(f),
        }
    }
}

pub proof fn lemma_frame_items_bounds(s: Seq<char>, i: int)
    requires
        0 <= i <= s.len(),
    ensures
        frame_items_spec(s, i) is Ok ==> i <= frame_items_spec(s, i)->Ok_0.1 <= s.len(),
    decreases s.len() - i,
{
    if 0 <= i < s.len() && s[i] == '_' {
        lemma_data_item_progress(s, i);
        if data_item_spec(s, i) is Ok {
            let e = data_item_spec(s, i)->Ok_0.1;
            lemma_layout_end(s, e);
            lemma_frame_items_bounds(s, layout_end(s, e));
        }
    }
}

/// An item that is read consumes at least one character.
pub proof fn lemma_item_progress(s: Seq<char>, i: int)
    requires
        0 <= i <= s.len(),
    ensures
        item_spec(s, i) is Ok ==> i < item_spec(s, i)->Ok_0.1 <= s.len(),
{
    if frame_open_at(s, i) {
        let e = name_end(s, i + 5);
        lemma_run_end(s, i + 5, CharClass::NonSpace);
        lemma_layout_end(s, e);
        lemma_frame_items_bounds(s, layout_end(s, e));
    } else {
        lemma_data_item_progress(s, i);
    }
}

/// The items of a data block from `i` to the end of the text.
pub open spec fn items_spec(s: Seq<char>, i: int) -> Result<Seq<ItemView>, Failure>
    decreases s.len() - i,
{
    if !(0 <= i <= s.len()) {
        Ok(seq![])
    } else {
        let k = layout_end(s, i);
        proof {
            lemma_layout_end(s, i);
            lemma_item_progress(s, k);
        }
        if k >= s.len() {
            Ok(seq![])
        } else {
            match item_spec(s, k) {
                Ok((it, e)) => match items_spec(s, e) {
                    Ok(its) => Ok(seq![it] + its),
                    Err(f) => Err(f),
                },
                Err(f) => Err(f),
            }
        }
    }
}

/// The data block whose header stands at `i`, with its items to the end of the text.
pub open spec fn block_at(s: Seq<char>, i: int) -> Result<DataBlockView, Failure> {
    if keyword_at(s, i, data_keyword()) && name_end(s, i + 5) > i + 5 {
        let e = name_end(s, i + 5);
        match items_spec(s, e) {
            Ok(items) => Ok(DataBlockView { name: s.subrange(i + 5, e), items }),
            Err(f) => Err(f),
        }
    } else {
        Err(Failure { kind: ErrorKind::MissingDataBlockHeader, start: i, end: i })
    }
}

/// The data block of a whole document, after any leading whitespace and comments.
pub open spec fn document_spec(s: Seq<char>) -> Result<DataBlockView, Failure> {
    block_at(s, layout_end(s, 0))
}

/// Reads the tags of a loop header: each `_` and tag, with whitespace and comments after it.
pub fn parse_loop_header(input: &mut Position) -> (r: Vec<String>)
    requires
        old(input).wf(),
    ensures
        final(input).wf(),
        final(input).text@ == old(input).text@,
        strings_view(r@) == header_spec(old(input).text@, old(input).offset as int).0,
        final(input).offset == header_spec(old(input).text@, old(input).offset as int).1,
{
    let ghost s = input.text@;
    let ghost k0 = input.offset as int;
    let mut header: Vec<String> = Vec::new();
    assert(strings_view(header@) + header_spec(s, k0).0 =~= header_spec(s, k0).0);
    while input.next_is('_')
        invariant
            input.wf(),
            input.text@ == s,
            header_spec(s, k0).0 == strings_view(header@) + header_spec(
                s,
                input.offset as int,
            ).0,
            header_spec(s, k0).1 == header_spec(s, input.offset as int).1,
        decreases s.len() - input.offset,
    {
        let ghost i = input.offset as int;
        let ghost before = strings_view(header@);
        let off = input.offset;
        input.advance_to(off + 1);
        let name = parse_identifier(input);
        proof {
            lemma_run_end(s, i + 1, CharClass::NonSpace);
            lemma_layout_end(s, input.offset as int);
        }
        trim_comments_and_whitespace(input);
        header.push(name);
        assert(strings_view(header@) =~= before.push(name@));
        assert(before + header_spec(s, i).0 =~= strings_view(header@) + header_spec(
            s,
            input.offset as int,
        ).0);
    }
    assert(strings_view(header@) + header_spec(s, input.offset as int).0 =~= strings_view(
        header@,
    ));
    header
}

/// Reads the values of a loop, each with whitespace and comments after it, until a value
/// cannot be read.
pub fn parse_loop_values(input: &mut Position) -> (r: Vec<Value>)
    requires
        old(input).wf(),
    ensures
        final(input).wf(),
        final(input).text@ == old(input).text@,
        values_view(r@) == values_spec(old(input).text@, old(input).offset as int).0,
        final(input).offset == values_spec(old(input).text@, old(input).offset as int).1,
{
    let ghost s = input.text@;
    let ghost k0 = input.offset as int;
    let mut data: Vec<Value> = Vec::new();
    assert(values_view(data@) + values_spec(s, k0).0 =~= values_spec(s, k0).0);
    loop
        invariant
            input.wf(),
            input.text@ == s,
            s == old(input).text@,
            k0 == old(input).offset,
            values_spec(s, k0).0 == values_view(data@) + values_spec(s, input.offset as int).0,
            values_spec(s, k0).1 == values_spec(s, input.offset as int).1,
        decreases s.len() - input.offset,
    {
        let ghost i = input.offset as int;
        let ghost before = values_view(data@);
        proof {
            lemma_value_progress(s, i);
        }
        match parse_value(input) {
            Ok(v) => {
                proof {
                    lemma_layout_end(s, input.offset as int);
                }
                trim_comments_and_whitespace(input);
                data.push(v);
                assert(values_view(data@) =~= before.push(v@));
                assert(before + values_spec(s, i).0 =~= values_view(data@) + values_spec(
                    s,
                    input.offset as int,
                ).0);
            },
            Err(_) => {
                assert(values_view(data@) + values_spec(s, i).0 =~= values_view(data@));
                return data;
            },
        }
    }
}

/// Reads a data item: `_` and a tag, then `loop_` with a header and values, or a single
/// value. On failure the cursor stands where the error ends: where it was if no `_` starts
/// the item, else where a value was looked for.
pub fn parse_data_item(input: &mut Position) -> (r: Result<DataItem, ParseError>)
    requires
        old(input).wf(),
    ensures
        final(input).wf(),
        final(input).text@ == old(input).text@,
        match data_item_spec(old(input).text@, old(input).offset as int) {
            Ok((d, e)) => r is Ok && r->Ok_0@ == d && final(input).offset == e,
            Err(f) => r is Err && r->Err_0.describes(old(input).text@, f) && final(input).offset
                == f.end,
        },
{
    let ghost s = input.text@;
    let start = input.location();
    let i = input.offset;
    if !input.next_is('_') {
        return Err(ParseError { kind: ErrorKind::MissingDataItemMarker, start, end: start });
    }
    input.advance_to(i + 1);
    let name = parse_identifier(input);
    trim_comments_and_whitespace(input);
    proof {
        reveal_strlit("loop_");
        assert("loop_"@ =~= loop_keyword());
    }
    let j = input.offset;
    let opens_loop = matches_at(input.text.as_slice(), j, "loop_") && scan(
        input.text.as_slice(),
        j + 5,
        CharClass::NonSpace,
    ) == j + 5;
    if opens_loop {
        input.advance_to(j + 5);
        trim_comments_and_whitespace(input);
        let header = parse_loop_header(input);
        let data = parse_loop_values(input);
        Ok(DataItem { name, content: MultiValue::Loop(Loop { header, data }) })
    } else {
        match parse_value(input) {
            Ok(v) => Ok(DataItem { name, content: MultiValue::Value(v) }),
            Err(_) => Err(
                ParseError {
                    kind: ErrorKind::MissingValueOrLoop,
                    start,
                    end: input.location(),
                },
            ),
        }
    }
}

/// Reads the data items of a save frame, each with whitespace and comments after it, while
/// the text goes on with `_`.
pub fn parse_frame_items(input: &mut Position) -> (r: Result<Vec<DataItem>, ParseError>)
    requires
        old(input).wf(),
    ensures
        final(input).wf(),
        final(input).text@ == old(input).text@,
        match frame_items_spec(old(input).text@, old(input).offset as int) {
            Ok((ds, e)) => r is Ok && data_items_view(r->Ok_0@) == ds && final(input).offset == e,
            Err(f) => r is Err && r->Err_0.describes(old(input).text@, f),
        },
{
    let ghost s = input.text@;
    let ghost k0 = input.offset as int;
    let mut items: Vec<DataItem> = Vec::new();
    assert(data_items_view(items@) + frame_items_spec(s, k0)->Ok_0.0 =~= frame_items_spec(
        s,
        k0,
    )->Ok_0.0);
    while input.next_is('_')
        invariant
            input.wf(),
            input.text@ == s,
            s == old(input).text@,
            k0 == old(input).offset,
            frame_items_spec(s, k0) is Ok <==> frame_items_spec(s, input.offset as int) is Ok,
            frame_items_spec(s, input.offset as int) is Ok ==> frame_items_spec(s, k0)->Ok_0
                == (
                data_items_view(items@) + frame_items_spec(s, input.offset as int)->Ok_0.0,
                frame_items_spec(s, input.offset as int)->Ok_0.1,
            ),
            frame_items_spec(s, input.offset as int) is Err ==> frame_items_spec(s, k0)
                == frame_items_spec(s, input.offset as int),
        decreases s.len() - input.offset,
    {
        let ghost i = input.offset as int;
        let ghost before = data_items_view(items@);
        proof {
            lemma_data_item_progress(s, i);
        }
        match parse_data_item(input) {
            Ok(d) => {
                proof {
                    lemma_layout_end(s, input.offset as int);
                }
                trim_comments_and_whitespace(input);
                items.push(d);
                assert(data_items_view(items@) =~= before.push(d@));
                proof {
                    let cur = input.offset as int;
                    if frame_items_spec(s, cur) is Ok {
                        assert(before + frame_items_spec(s, i)->Ok_0.0 =~= data_items_view(items@)
                            + frame_items_spec(s, cur)->Ok_0.0);
                    }
                }
            },
            Err(e) => {
                return Err(e);
            },
        }
    }
    assert(data_items_view(items@) + frame_items_spec(s, input.offset as int)->Ok_0.0
        =~= data_items_view(items@));
    Ok(items)
}

/// Reads an item: a save frame where `save_` and a name stand at the cursor, else a data
/// item.
pub fn parse_data_item_or_save_frame(input: &mut Position) -> (r: Result<Item, ParseError>)
    requires
        old(input).wf(),
    ensures
        final(input).wf(),
        final(input).text@ == old(input).text@,
        match item_spec(old(input).text@, old(input).offset as int) {
            Ok((it, e)) => r is Ok && r->Ok_0@ == it && final(input).offset == e,
            Err(f) => r is Err && r->Err_0.describes(old(input).text@, f),
        },
{
    let ghost s = input.text@;
    let start = input.location();
    let i = input.offset;
    let len = input.text.len();
    proof {
        reveal_strlit("save_");
        assert("save_"@ =~= save_keyword());
    }
    let opens = matches_at(input.text.as_slice(), i, "save_") && scan(
        input.text.as_slice(),
        i + 5,
        CharClass::NonSpace,
    ) > i + 5;
    if opens {
        input.advance_to(i + 5);
        let name = parse_identifier(input);
        trim_comments_and_whitespace(input);
        let items = match parse_frame_items(input) {
            Ok(items) => items,
            Err(e) => {
                return Err(e);
            },
        };
        let m = input.offset;
        proof {
            lemma_run_end(s, i + 5, CharClass::NonSpace);
            lemma_layout_end(s, name_end(s, i + 5));
            lemma_frame_items_bounds(s, layout_end(s, name_end(s, i + 5)));
        }
        if matches_at(input.text.as_slice(), m, "save_") && scan(
            input.text.as_slice(),
            m + 5,
            CharClass::NonSpace,
        ) == m + 5 {
            input.advance_to(m + 5);
            Ok(Item::SaveFrame(SaveFrame { name, items }))
        } else {
            Err(
                ParseError {
                    kind: ErrorKind::UnterminatedSaveFrame,
                    start,
                    end: input.location(),
                },
            )
        }
    } else {
        match parse_data_item(input) {
            Ok(d) => Ok(Item::DataItem(d)),
            Err(e) => Err(e),
        }
    }
}

/// Reads a data block whose header stands at the cursor: `data_` and a name, then items
/// (whitespace and comments between them) to the end of the text.
pub fn parse_data_block(input: &mut Position) -> (r: Result<DataBlock, ParseError>)
    requires
        old(input).wf(),
    ensures
        final(input).wf(),
        final(input).text@ == old(input).text@,
        match block_at(old(input).text@, old(input).offset as int) {
            Ok(b) => r is Ok && r->Ok_0@ == b,
            Err(f) => r is Err && r->Err_0.describes(old(input).text@, f),
        },
{
    let ghost s = input.text@;
    let start = input.location();
    let i = input.offset;
    proof {
        reveal_strlit("data_");
        assert("data_"@ =~= data_keyword());
    }
    let opens = matches_at(input.text.as_slice(), i, "data_") && scan(
        input.text.as_slice(),
        i + 5,
        CharClass::NonSpace,
    ) > i + 5;
    if !opens {
        return Err(ParseError { kind: ErrorKind::MissingDataBlockHeader, start, end: start });
    }
    input.advance_to(i + 5);
    let name = parse_identifier(input);
    let ghost k0 = input.offset as int;
    let mut items: Vec<Item> = Vec::new();
    assert(items_view(items@) + items_spec(s, k0)->Ok_0 =~= items_spec(s, k0)->Ok_0);
    loop
        invariant
            input.wf(),
            input.text@ == s,
            s == old(input).text@,
            block_at(s, old(input).offset as int) == match items_spec(s, k0) {
                Ok(its) => Ok(DataBlockView { name: name@, items: its }),
                Err(f) => Err(f),
            },
            items_spec(s, k0) is Ok <==> items_spec(s, input.offset as int) is Ok,
            items_spec(s, input.offset as int) is Ok ==> items_spec(s, k0)->Ok_0 == items_view(
                items@,
            ) + items_spec(s, input.offset as int)->Ok_0,
            items_spec(s, input.offset as int) is Err ==> items_spec(s, k0) == items_spec(
                s,
                input.offset as int,
            ),
        decreases s.len() - input.offset,
    {
        let ghost i0 = input.offset as int;
        let ghost before = items_view(items@);
        proof {
            lemma_layout_end(s, i0);
        }
        trim_comments_and_whitespace(input);
        if input.is_empty() {
            assert(items_view(items@) + items_spec(s, i0)->Ok_0 =~= items_view(items@));
            return Ok(DataBlock { name, items });
        }
        let ghost k = input.offset as int;
        proof {
            lemma_item_progress(s, k);
        }
        match parse_data_item_or_save_frame(input) {
            Ok(it) => {
                items.push(it);
                assert(items_view(items@) =~= before.push(it@));
                proof {
                    let cur = input.offset as int;
                    if items_spec(s, cur) is Ok {
                        assert(before + items_spec(s, i0)->Ok_0 =~= items_view(items@)
                            + items_spec(s, cur)->Ok_0);
                    }
                }
            },
            Err(e) => {
                return Err(e);
            },
        }
    }
}

/// Skips leading whitespace and comments, then reads the data block.
pub fn parse_main(input: &mut Position) -> (r: Result<DataBlock, ParseError>)
    requires
        old(input).wf(),
    ensures
        final(input).wf(),
        final(input).text@ == old(input).text@,
        match block_at(old(input).text@, layout_end(old(input).text@, old(input).offset as int)) {
            Ok(b) => r is Ok && r->Ok_0@ == b,
            Err(f) => r is Err && r->Err_0.describes(old(input).text@, f),
        },
{
    trim_comments_and_whitespace(input);
    parse_data_block(input)
}

/// Parses a whole CIF document into its data block.
pub fn parse_cif(input: String) -> (r: Result<DataBlock, ParseError>)
    ensures
        match document_spec(input@) {
            Ok(b) => r is Ok && r->Ok_0@ == b,
            Err(f) => r is Err && r->Err_0.describes(input@, f),
        },
{
    let mut pos = Position::new(input.as_str());
    parse_main(&mut pos)
}

/// A save frame opened by `save_` and a name is closed by a bare `save_` right after its
/// data items (whitespace and comments between them skipped): once the items are read,
/// the frame is read if and only if a bare `save_` follows them, and fails as unterminated
/// otherwise. Where no bare `save_` stands anywhere after the opening, the frame always
/// fails, as unterminated unless one of its items fails first.
pub proof fn save_frame_closing(s: Seq<char>, i: int)
    requires
        0 <= i <= s.len(),
        frame_open_at(s, i),
    ensures
        ({
            let items = frame_items_spec(s, layout_end(s, name_end(s, i + 5)));
            &&& items is Ok ==> (item_spec(s, i) is Ok <==> bare_save_at(s, items->Ok_0.1))
            &&& items is Ok && !bare_save_at(s, items->Ok_0.1) ==> item_spec(s, i) == Err::<
                (ItemView, int),
                Failure,
            >(Failure { kind: ErrorKind::UnterminatedSaveFrame, start: i, end: items->Ok_0.1 })
            &&& (forall|j: int| i < j <= s.len() ==> !bare_save_at(s, j)) ==> item_spec(s, i) is Err
            &&& (forall|j: int| i < j <= s.len() ==> !bare_save_at(s, j)) && items is Ok
                ==> item_spec(s, i)->Err_0.kind == ErrorKind::UnterminatedSaveFrame
        }),
{
    let e = name_end(s, i + 5);
    lemma_run_end(s, i + 5, CharClass::NonSpace);
    lemma_layout_end(s, e);
    let k = layout_end(s, e);
    lemma_frame_items_bounds(s, k);
    if frame_items_spec(s, k) is Ok {
        let m = frame_items_spec(s, k)->Ok_0.1;
        assert(i < m <= s.len());
    }
}

/// Loop data ends at a `save_` (a frame's close, or with a name its opening) and at a bare
/// `loop_`, in any ASCII case: no value is read there, and the values read before it stop
/// where it starts.
pub proof fn loop_data_stops_at_keywords(s: Seq<char>, i: int)
    requires
        0 <= i <= s.len(),
        keyword_at(s, i, save_keyword()) || loop_at(s, i),
    ensures
        value_spec(s, i) is Err,
        values_spec(s, i) == (Seq::<ValueView>::empty(), i),
{
    assert(s[i] == s[i + 0]);
}

} // verus!
