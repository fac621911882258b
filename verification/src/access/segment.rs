//! Where the pages of the commit log live on disk.
//!
//! The log is cut into segment files of 32 pages each. A segment is named
//! by its number in upper-case hexadecimal, four digits at least, and lies
//! in the directory `kb_xact`.

use vstd::prelude::*;

verus! {

/// The number of pages in one segment file.
pub const PAGES_PER_SEGMENT: u64 = 32;

/// The segment that holds a page.
pub open spec fn segment_of(pageno: int) -> int {
    pageno / 32
}

/// Where a page begins in its segment file, in bytes.
pub open spec fn offset_of(pageno: int) -> int {
    (pageno % 32) * 8192
}

/// The character that stands for a hexadecimal digit.
pub open spec fn hex_digit(d: int) -> char {
    if d == 0 {
        '0'
    } else if d == 1 {
        '1'
    } else if d == 2 {
        '2'
    } else if d == 3 {
        '3'
    } else if d == 4 {
        '4'
    } else if d == 5 {
        '5'
    } else if d == 6 {
        '6'
    } else if d == 7 {
        '7'
    } else if d == 8 {
        '8'
    } else if d == 9 {
        '9'
    } else if d == 10 {
        'A'
    } else if d == 11 {
        'B'
    } else if d == 12 {
        'C'
    } else if d == 13 {
        'D'
    } else if d == 14 {
        'E'
    } else {
        'F'
    }
}

/// The hexadecimal digits of `n`, with leading zeros where there would be
/// fewer than `width` of them.
pub open spec fn hex_name(n: nat, width: nat) -> Seq<char>
    decreases n, width,
{
    if n < 16 && width <= 1 {
        seq![hex_digit(n as int)]
    } else {
        hex_name(
            n / 16,
            if width >= 1 {
                (width - 1) as nat
            } else {
                0
            },
        ).push(hex_digit((n % 16) as int))
    }
}

/// The path of the file of a segment.
pub open spec fn segment_name(segno: u64) -> Seq<char> {
    "kb_xact/"@ + hex_name(segno as nat, 4)
}

/// The segment that holds a page.
pub fn page_segment(pageno: u64) -> (segno: u64)
    ensures
        segno == segment_of(pageno as int),
{
    pageno / PAGES_PER_SEGMENT
}

/// Where a page begins in its segment file, in bytes.
pub fn page_offset(pageno: u64) -> (offset: u64)
    ensures
        offset == offset_of(pageno as int),
        offset + 8192 <= 32 * 8192,
{
    (pageno % PAGES_PER_SEGMENT) * 8192
}

fn digit_str(d: u64) -> (s: &'static str)
    requires
        d < 16,
    ensures
        s@ == seq![hex_digit(d as int)],
{
    proof {
        reveal_strlit("0");
        reveal_strlit("1");
        reveal_strlit("2");
        reveal_strlit("3");
        reveal_strlit("4");
        reveal_strlit("5");
        reveal_strlit("6");
        reveal_strlit("7");
        reveal_strlit("8");
        reveal_strlit("9");
        reveal_strlit("A");
        reveal_strlit("B");
        reveal_strlit("C");
        reveal_strlit("D");
        reveal_strlit("E");
        reveal_strlit("F");
    }
    let s = if d == 0 {
        "0"
    } else if d == 1 {
        "1"
    } else if d == 2 {
        "2"
    } else if d == 3 {
        "3"
    } else if d == 4 {
        "4"
    } else if d == 5 {
        "5"
    } else if d == 6 {
        "6"
    } else if d == 7 {
        "7"
    } else if d == 8 {
        "8"
    } else if d == 9 {
        "9"
    } else if d == 10 {
        "A"
    } else if d == 11 {
        "B"
    } else if d == 12 {
        "C"
    } else if d == 13 {
        "D"
    } else if d == 14 {
        "E"
    } else {
        "F"
    };
    assert(s@ =~= seq![hex_digit(d as int)]);
    s
}

fn push_hex(name: &mut String, n: u64, width: usize)
    ensures
        final(name)@ == old(name)@ + hex_name(n as nat, width as nat),
    decreases n, width,
{
    if n < 16 && width <= 1 {
        name.append(digit_str(n));
    } else {
        let less: usize = if width == 0 {
            0
        } else {
            width - 1
        };
        push_hex(name, n / 16, less);
        let ghost upper = hex_name((n / 16) as nat, less as nat);
        assert(name@ == old(name)@ + upper);
        name.append(digit_str(n % 16));
        assert(hex_name(n as nat, width as nat) == upper.push(hex_digit((n % 16) as int)));
        assert(name@ =~= old(name)@ + hex_name(n as nat, width as nat));
    }
}

/// The path of the file of a segment.
pub fn segment_path(segno: u64) -> (path: String)
    ensures
        path@ == segment_name(segno),
{
    let mut path = String::from_str("kb_xact/");
    push_hex(&mut path, segno, 4);
    path
}

} // verus!
