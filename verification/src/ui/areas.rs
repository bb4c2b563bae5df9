//! How the screen is divided.

use vstd::prelude::*;

verus! {

/// A rectangle of cells.
#[derive(Clone, Copy, Debug, PartialEq, Eq, Structural)]
pub struct Area {
    pub x: u16,
    pub y: u16,
    pub width: u16,
    pub height: u16,
}

/// How much room a part of an area is to have.
#[derive(Clone, Copy, Debug, PartialEq, Eq, Structural)]
pub enum Room {
    Min(u16),
    Length(u16),
}

/// How an area is divided.
#[derive(Clone, Copy, Debug, PartialEq, Eq, Structural)]
pub enum Axis {
    /// Into parts below one another.
    Rows,
    /// Into parts beside one another.
    Columns,
}

/// Whether a part reaches across the area that was divided.
pub open spec fn spans_across(part: Area, whole: Area, axis: Axis) -> bool {
    match axis {
        Axis::Rows => part.x == whole.x && part.width == whole.width,
        Axis::Columns => part.y == whole.y && part.height == whole.height,
    }
}

/// Where an area starts along an axis.
pub open spec fn start_along(area: Area, axis: Axis) -> int {
    match axis {
        Axis::Rows => area.y as int,
        Axis::Columns => area.x as int,
    }
}

/// How far an area reaches along an axis.
pub open spec fn extent_along(area: Area, axis: Axis) -> int {
    match axis {
        Axis::Rows => area.height as int,
        Axis::Columns => area.width as int,
    }
}

/// Where an area ends along an axis.
pub open spec fn end_along(area: Area, axis: Axis) -> int {
    start_along(area, axis) + extent_along(area, axis)
}

/// How much room is asked for at least.
pub open spec fn room_asked(rooms: Seq<Room>) -> int
    decreases rooms.len(),
{
    if rooms.len() == 0 {
        0
    } else {
        room_asked(rooms.drop_last()) + (match rooms.last() {
            Room::Min(n) => n as int,
            Room::Length(n) => n as int,
        })
    }
}

/// Whether an area has the rooms that are asked for, and one of them may take
/// what is left.
pub open spec fn has_room(area: Area, axis: Axis, rooms: Seq<Room>) -> bool {
    &&& room_asked(rooms) <= extent_along(area, axis)
    &&& exists|i: int| 0 <= i < rooms.len() && #[trigger] rooms[i] is Min
}

/// Whether parts fill an area one behind another, each `Length` as long as it
/// says.
pub open spec fn fills(parts: Seq<Area>, area: Area, axis: Axis, rooms: Seq<Room>) -> bool {
    &&& start_along(parts.first(), axis) == start_along(area, axis)
    &&& end_along(parts.last(), axis) == end_along(area, axis)
    &&& forall|i: int, j: int|
        0 <= i && j == i + 1 && j < parts.len() ==> end_along(#[trigger] parts[i], axis) == start_along(
            #[trigger] parts[j],
            axis,
        )
    &&& forall|i: int|
        0 <= i < parts.len() ==> (#[trigger] rooms[i] matches Room::Length(n) ==> extent_along(parts[i], axis)
            == n)
}

/// Divides an area, by `ratatui::layout::Layout::split`.
///
/// It gives one part for each room that was asked for, in order, and each part
/// reaches across the area: rows keep its left edge and width, columns its top
/// and height. Along the axis no part reaches out of the area. Where the area
/// has all the rooms and one of them is a `Min`, each `Length` is had exactly
/// and the parts fill the area. Where the area is too small, or past the last
/// coordinate, which rooms are cut is found by a constraint solver and is left
/// open here: the solver walks hash maps, so equal calls need not agree.
#[verifier::external_body]
pub(crate) fn divide(area: Area, axis: Axis, rooms: &Vec<Room>) -> (parts: Vec<Area>)
    ensures
        parts@.len() == rooms@.len(),
        forall|i: int| 0 <= i < parts@.len() ==> spans_across(#[trigger] parts@[i], area, axis),
        end_along(area, axis) <= u16::MAX ==> forall|i: int|
            0 <= i < parts@.len() ==> start_along(area, axis) <= start_along(#[trigger] parts@[i], axis) && end_along(
                parts@[i],
                axis,
            ) <= end_along(area, axis),
        end_along(area, axis) <= u16::MAX && has_room(area, axis, rooms@) ==> fills(parts@, area, axis, rooms@),
{
    let direction = match axis {
        Axis::Rows => ratatui::layout::Direction::Vertical,
        Axis::Columns => ratatui::layout::Direction::Horizontal,
    };
    let constraints = rooms.iter().map(|r| match *r {
        Room::Min(n) => ratatui::layout::Constraint::Min(n),
        Room::Length(n) => ratatui::layout::Constraint::Length(n),
    });
    let whole = ratatui::layout::Rect { x: area.x, y: area.y, width: area.width, height: area.height };
    let layout = ratatui::layout::Layout::default().direction(direction).constraints(constraints);
    layout.split(whole).iter().map(|r| Area { x: r.x, y: r.y, width: r.width, height: r.height }).collect()
}

/// Where the parts of the screen stand.
#[derive(Clone, Copy, Debug, PartialEq, Eq, Structural)]
pub struct Screen {
    /// The file list, where more than one file is open.
    pub files: Option<Area>,
    pub tracks: Area,
    pub details: Area,
    pub status: Area,
    pub keys: Area,
}

/// Whether an area ends before the last coordinate.
pub open spec fn in_range(area: Area) -> bool {
    area.x + area.width <= u16::MAX && area.y + area.height <= u16::MAX
}

/// Whether an area lies in another.
pub open spec fn lies_in(part: Area, whole: Area) -> bool {
    &&& whole.x <= part.x && part.x + part.width <= whole.x + whole.width
    &&& whole.y <= part.y && part.y + part.height <= whole.y + whole.height
}

/// The columns that the file list takes.
pub const FILES_WIDTH: u16 = 34;

/// The rows that the details take.
pub const DETAILS_HEIGHT: u16 = 12;

/// How the parts stand on a screen that has room for all of them: the file list
/// at the left, where it is shown; at the right of it the tracks above the
/// details; and below them the status line and the keys.
pub open spec fn full_screen(area: Area, show_files: bool) -> Screen {
    let left = if show_files {
        FILES_WIDTH as int
    } else {
        0
    };
    let x = (area.x + left) as u16;
    let width = (area.width - left) as u16;
    let body = area.height - 2;
    let upper = body - DETAILS_HEIGHT;
    Screen {
        files: if show_files {
            Some(Area { x: area.x, y: area.y, width: FILES_WIDTH, height: body as u16 })
        } else {
            None
        },
        tracks: Area { x, y: area.y, width, height: upper as u16 },
        details: Area { x, y: (area.y + upper) as u16, width, height: DETAILS_HEIGHT },
        status: Area { x: area.x, y: (area.y + body) as u16, width: area.width, height: 1 },
        keys: Area { x: area.x, y: (area.y + body + 1) as u16, width: area.width, height: 1 },
    }
}

/// What holds of the parts of any screen: the two lines at the bottom reach
/// across it, the tracks and the details stand in one column, which without the
/// file list is the whole width, and no part reaches out of the screen. On a
/// screen of nineteen rows, and with the file list of seventy-four columns,
/// they stand as in [`full_screen`].
pub open spec fn divided(s: Screen, area: Area, show_files: bool) -> bool {
    &&& spans_across(s.status, area, Axis::Rows)
    &&& spans_across(s.keys, area, Axis::Rows)
    &&& s.files is Some == show_files
    &&& s.tracks.x == s.details.x
    &&& s.tracks.width == s.details.width
    &&& !show_files ==> spans_across(s.tracks, area, Axis::Rows)
    &&& in_range(area) ==> {
        &&& lies_in(s.tracks, area) && lies_in(s.details, area)
        &&& lies_in(s.status, area) && lies_in(s.keys, area)
        &&& s.files matches Some(files) ==> lies_in(files, area)
        &&& area.height >= 19 && (show_files ==> area.width >= 74) ==> s == full_screen(area, show_files)
    }
}

/// Two rooms.
proof fn lemma_two_rooms(a: Room, b: Room)
    ensures
        room_asked(seq![a, b]) == room_asked(seq![a]) + room_asked(seq![b]),
        room_asked(seq![a]) == (match a {
            Room::Min(n) => n as int,
            Room::Length(n) => n as int,
        }),
{
    reveal_with_fuel(room_asked, 3);
    assert(seq![a, b].drop_last() =~= seq![a]);
    assert(seq![a].drop_last() =~= Seq::<Room>::empty());
    assert(seq![b].drop_last() =~= Seq::<Room>::empty());
}

/// Divides the screen: the body and two lines below it; in the body the file
/// list, where there is more than one file, and beside it the tracks above the
/// details.
pub fn screen(area: Area, show_files: bool) -> (s: Screen)
    ensures
        divided(s, area, show_files),
{
    let lines: Vec<Room> = vec![Room::Min(6), Room::Length(1), Room::Length(1)];
    let rows = divide(area, Axis::Rows, &lines);
    assert(spans_across(rows@[0], area, Axis::Rows));
    assert(spans_across(rows@[1], area, Axis::Rows));
    assert(spans_across(rows@[2], area, Axis::Rows));
    proof {
        assert(lines@.drop_last() =~= seq![Room::Min(6), Room::Length(1)]);
        lemma_two_rooms(Room::Min(6), Room::Length(1));
        lemma_two_rooms(Room::Length(1), Room::Length(1));
        assert(lines@[0] is Min);
        assert(lines@[1] is Length && lines@[2] is Length);
    }
    let body = rows[0];
    let (files, right) = if show_files {
        let columns: Vec<Room> = vec![Room::Length(FILES_WIDTH), Room::Min(40)];
        let panes = divide(body, Axis::Columns, &columns);
        proof {
            assert(columns@ =~= seq![Room::Length(FILES_WIDTH), Room::Min(40)]);
            lemma_two_rooms(Room::Length(FILES_WIDTH), Room::Min(40));
            lemma_two_rooms(Room::Min(40), Room::Min(40));
            assert(columns@[1] is Min);
            assert(columns@[0] is Length);
            assert(spans_across(panes@[0], body, Axis::Columns));
            assert(spans_across(panes@[1], body, Axis::Columns));
        }
        (Some(panes[0]), panes[1])
    } else {
        let whole: Vec<Room> = vec![Room::Min(0)];
        let panes = divide(body, Axis::Rows, &whole);
        proof {
            assert(whole@ =~= seq![Room::Min(0)]);
            lemma_two_rooms(Room::Min(0), Room::Min(0));
            assert(whole@[0] is Min);
            assert(spans_across(panes@[0], body, Axis::Rows));
        }
        (None, panes[0])
    };
    let heights: Vec<Room> = vec![Room::Min(5), Room::Length(DETAILS_HEIGHT)];
    let split = divide(right, Axis::Rows, &heights);
    proof {
        assert(heights@ =~= seq![Room::Min(5), Room::Length(DETAILS_HEIGHT)]);
        lemma_two_rooms(Room::Min(5), Room::Length(DETAILS_HEIGHT));
        lemma_two_rooms(Room::Length(DETAILS_HEIGHT), Room::Min(5));
        assert(heights@[0] is Min);
        assert(heights@[1] is Length);
        assert(spans_across(split@[0], right, Axis::Rows));
        assert(spans_across(split@[1], right, Axis::Rows));
    }
    Screen { files, tracks: split[0], details: split[1], status: rows[1], keys: rows[2] }
}

/// The smaller of two lengths.
pub open spec fn at_most(a: int, b: int) -> int {
    if a < b {
        a
    } else {
        b
    }
}

/// A length less the frame round it.
pub open spec fn inside(n: u16) -> int {
    if n < 2 {
        0
    } else {
        n - 2
    }
}

/// An area of that size in the middle of another, no larger than fits inside a
/// frame of one cell.
pub open spec fn centred(width: u16, height: u16, area: Area) -> Area {
    let w = at_most(width as int, inside(area.width));
    let h = at_most(height as int, inside(area.height));
    Area {
        x: (area.x + (area.width - w) / 2) as u16,
        y: (area.y + (area.height - h) / 2) as u16,
        width: w as u16,
        height: h as u16,
    }
}

/// Puts an area in the middle of another. A popup is never larger than what it
/// pops up over.
pub fn centered(width: u16, height: u16, area: Area) -> (r: Area)
    requires
        in_range(area),
    ensures
        r == centred(width, height, area),
        area.x <= r.x,
        r.x + r.width <= area.x + area.width,
        area.y <= r.y,
        r.y + r.height <= area.y + area.height,
{
    let room_w: u16 = if area.width < 2 {
        0
    } else {
        area.width - 2
    };
    let room_h: u16 = if area.height < 2 {
        0
    } else {
        area.height - 2
    };
    let w: u16 = if width < room_w {
        width
    } else {
        room_w
    };
    let h: u16 = if height < room_h {
        height
    } else {
        room_h
    };
    Area {
        x: area.x + (area.width - w) / 2,
        y: area.y + (area.height - h) / 2,
        width: w,
        height: h,
    }
}

} // verus!
