//! Element names and the reaction sum rules.

use vstd::prelude::*;

use crate::error::Error;
use crate::text::{lemma_digits_value_nonneg, all_digits, chars_of, decimal, digits_upto, digits_value, is_digit, lemma_decimal_digits, push_decimal, slice_chars, string_from_chars, string_push};

verus! {

broadcast use vstd::string::group_string_axioms;

/// The first letter of the chemical symbol of atomic number `z`. Index 0
/// is the neutron, `n`.
pub open spec fn symbol_first(z: int) -> char {
    if z == 0 {
        'n'
    } else if z == 1 {
        'H'
    } else if z == 2 {
        'H'
    } else if z == 3 {
        'L'
    } else if z == 4 {
        'B'
    } else if z == 5 {
        'B'
    } else if z == 6 {
        'C'
    } else if z == 7 {
        'N'
    } else if z == 8 {
        'O'
    } else if z == 9 {
        'F'
    } else if z == 10 {
        'N'
    } else if z == 11 {
        'N'
    } else if z == 12 {
        'M'
    } else if z == 13 {
        'A'
    } else if z == 14 {
        'S'
    } else if z == 15 {
        'P'
    } else if z == 16 {
        'S'
    } else if z == 17 {
        'C'
    } else if z == 18 {
        'A'
    } else if z == 19 {
        'K'
    } else if z == 20 {
        'C'
    } else if z == 21 {
        'S'
    } else if z == 22 {
        'T'
    } else if z == 23 {
        'V'
    } else if z == 24 {
        'C'
    } else if z == 25 {
        'M'
    } else if z == 26 {
        'F'
    } else if z == 27 {
        'C'
    } else if z == 28 {
        'N'
    } else if z == 29 {
        'C'
    } else if z == 30 {
        'Z'
    } else if z == 31 {
        'G'
    } else if z == 32 {
        'G'
    } else if z == 33 {
        'A'
    } else if z == 34 {
        'S'
    } else if z == 35 {
        'B'
    } else if z == 36 {
        'K'
    } else if z == 37 {
        'R'
    } else if z == 38 {
        'S'
    } else if z == 39 {
        'Y'
    } else if z == 40 {
        'Z'
    } else if z == 41 {
        'N'
    } else if z == 42 {
        'M'
    } else if z == 43 {
        'T'
    } else if z == 44 {
        'R'
    } else if z == 45 {
        'R'
    } else if z == 46 {
        'P'
    } else if z == 47 {
        'A'
    } else if z == 48 {
        'C'
    } else if z == 49 {
        'I'
    } else if z == 50 {
        'S'
    } else if z == 51 {
        'S'
    } else if z == 52 {
        'T'
    } else if z == 53 {
        'I'
    } else if z == 54 {
        'X'
    } else if z == 55 {
        'C'
    } else if z == 56 {
        'B'
    } else if z == 57 {
        'L'
    } else if z == 58 {
        'C'
    } else if z == 59 {
        'P'
    } else if z == 60 {
        'N'
    } else if z == 61 {
        'P'
    } else if z == 62 {
        'S'
    } else if z == 63 {
        'E'
    } else if z == 64 {
        'G'
    } else if z == 65 {
        'T'
    } else if z == 66 {
        'D'
    } else if z == 67 {
        'H'
    } else if z == 68 {
        'E'
    } else if z == 69 {
        'T'
    } else if z == 70 {
        'Y'
    } else if z == 71 {
        'L'
    } else if z == 72 {
        'H'
    } else if z == 73 {
        'T'
    } else if z == 74 {
        'W'
    } else if z == 75 {
        'R'
    } else if z == 76 {
        'O'
    } else if z == 77 {
        'I'
    } else if z == 78 {
        'P'
    } else if z == 79 {
        'A'
    } else if z == 80 {
        'H'
    } else if z == 81 {
        'T'
    } else if z == 82 {
        'P'
    } else if z == 83 {
        'B'
    } else if z == 84 {
        'P'
    } else if z == 85 {
        'A'
    } else if z == 86 {
        'R'
    } else if z == 87 {
        'F'
    } else if z == 88 {
        'R'
    } else if z == 89 {
        'A'
    } else if z == 90 {
        'T'
    } else if z == 91 {
        'P'
    } else if z == 92 {
        'U'
    } else if z == 93 {
        'N'
    } else if z == 94 {
        'P'
    } else if z == 95 {
        'A'
    } else if z == 96 {
        'C'
    } else if z == 97 {
        'B'
    } else if z == 98 {
        'C'
    } else if z == 99 {
        'E'
    } else if z == 100 {
        'F'
    } else if z == 101 {
        'M'
    } else if z == 102 {
        'N'
    } else if z == 103 {
        'L'
    } else if z == 104 {
        'R'
    } else if z == 105 {
        'D'
    } else if z == 106 {
        'S'
    } else if z == 107 {
        'B'
    } else if z == 108 {
        'H'
    } else if z == 109 {
        'M'
    } else if z == 110 {
        'D'
    } else if z == 111 {
        'R'
    } else if z == 112 {
        'C'
    } else if z == 113 {
        'N'
    } else if z == 114 {
        'F'
    } else if z == 115 {
        'M'
    } else if z == 116 {
        'L'
    } else if z == 117 {
        'T'
    } else if z == 118 {
        'O'
    } else {
        ' '
    }
}

/// The second letter of the chemical symbol of atomic number `z`, or a
/// blank where the symbol has one letter.
pub open spec fn symbol_second(z: int) -> char {
    if z == 0 {
        ' '
    } else if z == 1 {
        ' '
    } else if z == 2 {
        'e'
    } else if z == 3 {
        'i'
    } else if z == 4 {
        'e'
    } else if z == 5 {
        ' '
    } else if z == 6 {
        ' '
    } else if z == 7 {
        ' '
    } else if z == 8 {
        ' '
    } else if z == 9 {
        ' '
    } else if z == 10 {
        'e'
    } else if z == 11 {
        'a'
    } else if z == 12 {
        'g'
    } else if z == 13 {
        'l'
    } else if z == 14 {
        'i'
    } else if z == 15 {
        ' '
    } else if z == 16 {
        ' '
    } else if z == 17 {
        'l'
    } else if z == 18 {
        'r'
    } else if z == 19 {
        ' '
    } else if z == 20 {
        'a'
    } else if z == 21 {
        'c'
    } else if z == 22 {
        'i'
    } else if z == 23 {
        ' '
    } else if z == 24 {
        'r'
    } else if z == 25 {
        'n'
    } else if z == 26 {
        'e'
    } else if z == 27 {
        'o'
    } else if z == 28 {
        'i'
    } else if z == 29 {
        'u'
    } else if z == 30 {
        'n'
    } else if z == 31 {
        'a'
    } else if z == 32 {
        'e'
    } else if z == 33 {
        's'
    } else if z == 34 {
        'e'
    } else if z == 35 {
        'r'
    } else if z == 36 {
        'r'
    } else if z == 37 {
        'b'
    } else if z == 38 {
        'r'
    } else if z == 39 {
        ' '
    } else if z == 40 {
        'r'
    } else if z == 41 {
        'b'
    } else if z == 42 {
        'o'
    } else if z == 43 {
        'c'
    } else if z == 44 {
        'u'
    } else if z == 45 {
        'h'
    } else if z == 46 {
        'd'
    } else if z == 47 {
        'g'
    } else if z == 48 {
        'd'
    } else if z == 49 {
        'n'
    } else if z == 50 {
        'n'
    } else if z == 51 {
        'b'
    } else if z == 52 {
        'e'
    } else if z == 53 {
        ' '
    } else if z == 54 {
        'e'
    } else if z == 55 {
        's'
    } else if z == 56 {
        'a'
    } else if z == 57 {
        'a'
    } else if z == 58 {
        'e'
    } else if z == 59 {
        'r'
    } else if z == 60 {
        'd'
    } else if z == 61 {
        'm'
    } else if z == 62 {
        'm'
    } else if z == 63 {
        'u'
    } else if z == 64 {
        'd'
    } else if z == 65 {
        'b'
    } else if z == 66 {
        'y'
    } else if z == 67 {
        'o'
    } else if z == 68 {
        'r'
    } else if z == 69 {
        'm'
    } else if z == 70 {
        'b'
    } else if z == 71 {
        'u'
    } else if z == 72 {
        'f'
    } else if z == 73 {
        'a'
    } else if z == 74 {
        ' '
    } else if z == 75 {
        'e'
    } else if z == 76 {
        's'
    } else if z == 77 {
        'r'
    } else if z == 78 {
        't'
    } else if z == 79 {
        'u'
    } else if z == 80 {
        'g'
    } else if z == 81 {
        'l'
    } else if z == 82 {
        'b'
    } else if z == 83 {
        'i'
    } else if z == 84 {
        'o'
    } else if z == 85 {
        't'
    } else if z == 86 {
        'n'
    } else if z == 87 {
        'r'
    } else if z == 88 {
        'a'
    } else if z == 89 {
        'c'
    } else if z == 90 {
        'h'
    } else if z == 91 {
        'a'
    } else if z == 92 {
        ' '
    } else if z == 93 {
        'p'
    } else if z == 94 {
        'u'
    } else if z == 95 {
        'm'
    } else if z == 96 {
        'm'
    } else if z == 97 {
        'k'
    } else if z == 98 {
        'f'
    } else if z == 99 {
        's'
    } else if z == 100 {
        'm'
    } else if z == 101 {
        'd'
    } else if z == 102 {
        'o'
    } else if z == 103 {
        'r'
    } else if z == 104 {
        'f'
    } else if z == 105 {
        'b'
    } else if z == 106 {
        'g'
    } else if z == 107 {
        'h'
    } else if z == 108 {
        's'
    } else if z == 109 {
        't'
    } else if z == 110 {
        's'
    } else if z == 111 {
        'g'
    } else if z == 112 {
        'n'
    } else if z == 113 {
        'h'
    } else if z == 114 {
        'l'
    } else if z == 115 {
        'c'
    } else if z == 116 {
        'v'
    } else if z == 117 {
        's'
    } else if z == 118 {
        'g'
    } else {
        ' '
    }
}

/// The atomic number whose symbol has the given letters.
pub open spec fn symbol_number(c0: char, c1: char) -> int {
    if c0 == 'n' && c1 == ' ' {
        0
    } else if c0 == 'H' && c1 == ' ' {
        1
    } else if c0 == 'H' && c1 == 'e' {
        2
    } else if c0 == 'L' && c1 == 'i' {
        3
    } else if c0 == 'B' && c1 == 'e' {
        4
    } else if c0 == 'B' && c1 == ' ' {
        5
    } else if c0 == 'C' && c1 == ' ' {
        6
    } else if c0 == 'N' && c1 == ' ' {
        7
    } else if c0 == 'O' && c1 == ' ' {
        8
    } else if c0 == 'F' && c1 == ' ' {
        9
    } else if c0 == 'N' && c1 == 'e' {
        10
    } else if c0 == 'N' && c1 == 'a' {
        11
    } else if c0 == 'M' && c1 == 'g' {
        12
    } else if c0 == 'A' && c1 == 'l' {
        13
    } else if c0 == 'S' && c1 == 'i' {
        14
    } else if c0 == 'P' && c1 == ' ' {
        15
    } else if c0 == 'S' && c1 == ' ' {
        16
    } else if c0 == 'C' && c1 == 'l' {
        17
    } else if c0 == 'A' && c1 == 'r' {
        18
    } else if c0 == 'K' && c1 == ' ' {
        19
    } else if c0 == 'C' && c1 == 'a' {
        20
    } else if c0 == 'S' && c1 == 'c' {
        21
    } else if c0 == 'T' && c1 == 'i' {
        22
    } else if c0 == 'V' && c1 == ' ' {
        23
    } else if c0 == 'C' && c1 == 'r' {
        24
    } else if c0 == 'M' && c1 == 'n' {
        25
    } else if c0 == 'F' && c1 == 'e' {
        26
    } else if c0 == 'C' && c1 == 'o' {
        27
    } else if c0 == 'N' && c1 == 'i' {
        28
    } else if c0 == 'C' && c1 == 'u' {
        29
    } else if c0 == 'Z' && c1 == 'n' {
        30
    } else if c0 == 'G' && c1 == 'a' {
        31
    } else if c0 == 'G' && c1 == 'e' {
        32
    } else if c0 == 'A' && c1 == 's' {
        33
    } else if c0 == 'S' && c1 == 'e' {
        34
    } else if c0 == 'B' && c1 == 'r' {
        35
    } else if c0 == 'K' && c1 == 'r' {
        36
    } else if c0 == 'R' && c1 == 'b' {
        37
    } else if c0 == 'S' && c1 == 'r' {
        38
    } else if c0 == 'Y' && c1 == ' ' {
        39
    } else if c0 == 'Z' && c1 == 'r' {
        40
    } else if c0 == 'N' && c1 == 'b' {
        41
    } else if c0 == 'M' && c1 == 'o' {
        42
    } else if c0 == 'T' && c1 == 'c' {
        43
    } else if c0 == 'R' && c1 == 'u' {
        44
    } else if c0 == 'R' && c1 == 'h' {
        45
    } else if c0 == 'P' && c1 == 'd' {
        46
    } else if c0 == 'A' && c1 == 'g' {
        47
    } else if c0 == 'C' && c1 == 'd' {
        48
    } else if c0 == 'I' && c1 == 'n' {
        49
    } else if c0 == 'S' && c1 == 'n' {
        50
    } else if c0 == 'S' && c1 == 'b' {
        51
    } else if c0 == 'T' && c1 == 'e' {
        52
    } else if c0 == 'I' && c1 == ' ' {
        53
    } else if c0 == 'X' && c1 == 'e' {
        54
    } else if c0 == 'C' && c1 == 's' {
        55
    } else if c0 == 'B' && c1 == 'a' {
        56
    } else if c0 == 'L' && c1 == 'a' {
        57
    } else if c0 == 'C' && c1 == 'e' {
        58
    } else if c0 == 'P' && c1 == 'r' {
        59
    } else if c0 == 'N' && c1 == 'd' {
        60
    } else if c0 == 'P' && c1 == 'm' {
        61
    } else if c0 == 'S' && c1 == 'm' {
        62
    } else if c0 == 'E' && c1 == 'u' {
        63
    } else if c0 == 'G' && c1 == 'd' {
        64
    } else if c0 == 'T' && c1 == 'b' {
        65
    } else if c0 == 'D' && c1 == 'y' {
        66
    } else if c0 == 'H' && c1 == 'o' {
        67
    } else if c0 == 'E' && c1 == 'r' {
        68
    } else if c0 == 'T' && c1 == 'm' {
        69
    } else if c0 == 'Y' && c1 == 'b' {
        70
    } else if c0 == 'L' && c1 == 'u' {
        71
    } else if c0 == 'H' && c1 == 'f' {
        72
    } else if c0 == 'T' && c1 == 'a' {
        73
    } else if c0 == 'W' && c1 == ' ' {
        74
    } else if c0 == 'R' && c1 == 'e' {
        75
    } else if c0 == 'O' && c1 == 's' {
        76
    } else if c0 == 'I' && c1 == 'r' {
        77
    } else if c0 == 'P' && c1 == 't' {
        78
    } else if c0 == 'A' && c1 == 'u' {
        79
    } else if c0 == 'H' && c1 == 'g' {
        80
    } else if c0 == 'T' && c1 == 'l' {
        81
    } else if c0 == 'P' && c1 == 'b' {
        82
    } else if c0 == 'B' && c1 == 'i' {
        83
    } else if c0 == 'P' && c1 == 'o' {
        84
    } else if c0 == 'A' && c1 == 't' {
        85
    } else if c0 == 'R' && c1 == 'n' {
        86
    } else if c0 == 'F' && c1 == 'r' {
        87
    } else if c0 == 'R' && c1 == 'a' {
        88
    } else if c0 == 'A' && c1 == 'c' {
        89
    } else if c0 == 'T' && c1 == 'h' {
        90
    } else if c0 == 'P' && c1 == 'a' {
        91
    } else if c0 == 'U' && c1 == ' ' {
        92
    } else if c0 == 'N' && c1 == 'p' {
        93
    } else if c0 == 'P' && c1 == 'u' {
        94
    } else if c0 == 'A' && c1 == 'm' {
        95
    } else if c0 == 'C' && c1 == 'm' {
        96
    } else if c0 == 'B' && c1 == 'k' {
        97
    } else if c0 == 'C' && c1 == 'f' {
        98
    } else if c0 == 'E' && c1 == 's' {
        99
    } else if c0 == 'F' && c1 == 'm' {
        100
    } else if c0 == 'M' && c1 == 'd' {
        101
    } else if c0 == 'N' && c1 == 'o' {
        102
    } else if c0 == 'L' && c1 == 'r' {
        103
    } else if c0 == 'R' && c1 == 'f' {
        104
    } else if c0 == 'D' && c1 == 'b' {
        105
    } else if c0 == 'S' && c1 == 'g' {
        106
    } else if c0 == 'B' && c1 == 'h' {
        107
    } else if c0 == 'H' && c1 == 's' {
        108
    } else if c0 == 'M' && c1 == 't' {
        109
    } else if c0 == 'D' && c1 == 's' {
        110
    } else if c0 == 'R' && c1 == 'g' {
        111
    } else if c0 == 'C' && c1 == 'n' {
        112
    } else if c0 == 'N' && c1 == 'h' {
        113
    } else if c0 == 'F' && c1 == 'l' {
        114
    } else if c0 == 'M' && c1 == 'c' {
        115
    } else if c0 == 'L' && c1 == 'v' {
        116
    } else if c0 == 'T' && c1 == 's' {
        117
    } else if c0 == 'O' && c1 == 'g' {
        118
    } else {
        -1
    }
}

/// [`symbol_first`] and [`symbol_second`], computed.
fn symbol_letters_exec(z: u32) -> (r: (char, char))
    requires
        z <= 118,
    ensures
        r.0 == symbol_first(z as int),
        r.1 == symbol_second(z as int),
{
    match z {
        0 => ('n', ' '),
        1 => ('H', ' '),
        2 => ('H', 'e'),
        3 => ('L', 'i'),
        4 => ('B', 'e'),
        5 => ('B', ' '),
        6 => ('C', ' '),
        7 => ('N', ' '),
        8 => ('O', ' '),
        9 => ('F', ' '),
        10 => ('N', 'e'),
        11 => ('N', 'a'),
        12 => ('M', 'g'),
        13 => ('A', 'l'),
        14 => ('S', 'i'),
        15 => ('P', ' '),
        16 => ('S', ' '),
        17 => ('C', 'l'),
        18 => ('A', 'r'),
        19 => ('K', ' '),
        20 => ('C', 'a'),
        21 => ('S', 'c'),
        22 => ('T', 'i'),
        23 => ('V', ' '),
        24 => ('C', 'r'),
        25 => ('M', 'n'),
        26 => ('F', 'e'),
        27 => ('C', 'o'),
        28 => ('N', 'i'),
        29 => ('C', 'u'),
        30 => ('Z', 'n'),
        31 => ('G', 'a'),
        32 => ('G', 'e'),
        33 => ('A', 's'),
        34 => ('S', 'e'),
        35 => ('B', 'r'),
        36 => ('K', 'r'),
        37 => ('R', 'b'),
        38 => ('S', 'r'),
        39 => ('Y', ' '),
        40 => ('Z', 'r'),
        41 => ('N', 'b'),
        42 => ('M', 'o'),
        43 => ('T', 'c'),
        44 => ('R', 'u'),
        45 => ('R', 'h'),
        46 => ('P', 'd'),
        47 => ('A', 'g'),
        48 => ('C', 'd'),
        49 => ('I', 'n'),
        50 => ('S', 'n'),
        51 => ('S', 'b'),
        52 => ('T', 'e'),
        53 => ('I', ' '),
        54 => ('X', 'e'),
        55 => ('C', 's'),
        56 => ('B', 'a'),
        57 => ('L', 'a'),
        58 => ('C', 'e'),
        59 => ('P', 'r'),
        60 => ('N', 'd'),
        61 => ('P', 'm'),
        62 => ('S', 'm'),
        63 => ('E', 'u'),
        64 => ('G', 'd'),
        65 => ('T', 'b'),
        66 => ('D', 'y'),
        67 => ('H', 'o'),
        68 => ('E', 'r'),
        69 => ('T', 'm'),
        70 => ('Y', 'b'),
        71 => ('L', 'u'),
        72 => ('H', 'f'),
        73 => ('T', 'a'),
        74 => ('W', ' '),
        75 => ('R', 'e'),
        76 => ('O', 's'),
        77 => ('I', 'r'),
        78 => ('P', 't'),
        79 => ('A', 'u'),
        80 => ('H', 'g'),
        81 => ('T', 'l'),
        82 => ('P', 'b'),
        83 => ('B', 'i'),
        84 => ('P', 'o'),
        85 => ('A', 't'),
        86 => ('R', 'n'),
        87 => ('F', 'r'),
        88 => ('R', 'a'),
        89 => ('A', 'c'),
        90 => ('T', 'h'),
        91 => ('P', 'a'),
        92 => ('U', ' '),
        93 => ('N', 'p'),
        94 => ('P', 'u'),
        95 => ('A', 'm'),
        96 => ('C', 'm'),
        97 => ('B', 'k'),
        98 => ('C', 'f'),
        99 => ('E', 's'),
        100 => ('F', 'm'),
        101 => ('M', 'd'),
        102 => ('N', 'o'),
        103 => ('L', 'r'),
        104 => ('R', 'f'),
        105 => ('D', 'b'),
        106 => ('S', 'g'),
        107 => ('B', 'h'),
        108 => ('H', 's'),
        109 => ('M', 't'),
        110 => ('D', 's'),
        111 => ('R', 'g'),
        112 => ('C', 'n'),
        113 => ('N', 'h'),
        114 => ('F', 'l'),
        115 => ('M', 'c'),
        116 => ('L', 'v'),
        117 => ('T', 's'),
        118 => ('O', 'g'),
        _ => (' ', ' '),
    }
}

/// The letters of every element lead back to its atomic number, and have
/// the shape of a symbol.
pub proof fn lemma_symbol_number(z: int)
    requires
        0 <= z <= 118,
    ensures
        symbol_number(symbol_first(z), symbol_second(z)) == z,
        symbol_letters(symbol_first(z), symbol_second(z)),
{
    if z == 0 {
    } else if z == 1 {
    } else if z == 2 {
    } else if z == 3 {
    } else if z == 4 {
    } else if z == 5 {
    } else if z == 6 {
    } else if z == 7 {
    } else if z == 8 {
    } else if z == 9 {
    } else if z == 10 {
    } else if z == 11 {
    } else if z == 12 {
    } else if z == 13 {
    } else if z == 14 {
    } else if z == 15 {
    } else if z == 16 {
    } else if z == 17 {
    } else if z == 18 {
    } else if z == 19 {
    } else if z == 20 {
    } else if z == 21 {
    } else if z == 22 {
    } else if z == 23 {
    } else if z == 24 {
    } else if z == 25 {
    } else if z == 26 {
    } else if z == 27 {
    } else if z == 28 {
    } else if z == 29 {
    } else if z == 30 {
    } else if z == 31 {
    } else if z == 32 {
    } else if z == 33 {
    } else if z == 34 {
    } else if z == 35 {
    } else if z == 36 {
    } else if z == 37 {
    } else if z == 38 {
    } else if z == 39 {
    } else if z == 40 {
    } else if z == 41 {
    } else if z == 42 {
    } else if z == 43 {
    } else if z == 44 {
    } else if z == 45 {
    } else if z == 46 {
    } else if z == 47 {
    } else if z == 48 {
    } else if z == 49 {
    } else if z == 50 {
    } else if z == 51 {
    } else if z == 52 {
    } else if z == 53 {
    } else if z == 54 {
    } else if z == 55 {
    } else if z == 56 {
    } else if z == 57 {
    } else if z == 58 {
    } else if z == 59 {
    } else if z == 60 {
    } else if z == 61 {
    } else if z == 62 {
    } else if z == 63 {
    } else if z == 64 {
    } else if z == 65 {
    } else if z == 66 {
    } else if z == 67 {
    } else if z == 68 {
    } else if z == 69 {
    } else if z == 70 {
    } else if z == 71 {
    } else if z == 72 {
    } else if z == 73 {
    } else if z == 74 {
    } else if z == 75 {
    } else if z == 76 {
    } else if z == 77 {
    } else if z == 78 {
    } else if z == 79 {
    } else if z == 80 {
    } else if z == 81 {
    } else if z == 82 {
    } else if z == 83 {
    } else if z == 84 {
    } else if z == 85 {
    } else if z == 86 {
    } else if z == 87 {
    } else if z == 88 {
    } else if z == 89 {
    } else if z == 90 {
    } else if z == 91 {
    } else if z == 92 {
    } else if z == 93 {
    } else if z == 94 {
    } else if z == 95 {
    } else if z == 96 {
    } else if z == 97 {
    } else if z == 98 {
    } else if z == 99 {
    } else if z == 100 {
    } else if z == 101 {
    } else if z == 102 {
    } else if z == 103 {
    } else if z == 104 {
    } else if z == 105 {
    } else if z == 106 {
    } else if z == 107 {
    } else if z == 108 {
    } else if z == 109 {
    } else if z == 110 {
    } else if z == 111 {
    } else if z == 112 {
    } else if z == 113 {
    } else if z == 114 {
    } else if z == 115 {
    } else if z == 116 {
    } else if z == 117 {
    } else if z == 118 {
    }
}


/// Whether a pair of letters has the shape of a symbol: an upper-case
/// letter (or the `n` of the neutron), then a lower-case letter or a blank.
pub open spec fn symbol_letters(c0: char, c1: char) -> bool {
    &&& (is_upper(c0) || c0 == 'n')
    &&& (c1 == ' ' || is_lower(c1))
}

/// The chemical symbol of atomic number `z`, for `z` from 0 to 118.
pub open spec fn symbol(z: int) -> Seq<char> {
    if symbol_second(z) == ' ' {
        seq![symbol_first(z)]
    } else {
        seq![symbol_first(z), symbol_second(z)]
    }
}

/// The first atomic number from `z` on whose symbol is `s`.
pub open spec fn find_symbol(s: Seq<char>, z: int) -> Option<int>
    decreases 119 - z,
{
    if z < 0 || z > 118 {
        None
    } else if symbol(z) == s {
        Some(z)
    } else {
        find_symbol(s, z + 1)
    }
}

/// The atomic number of a chemical symbol.
pub open spec fn atomic_number_spec(s: Seq<char>) -> Option<int> {
    find_symbol(s, 0)
}

/// No two elements share a symbol.
pub proof fn lemma_symbols_distinct(i: int, j: int)
    requires
        0 <= i <= 118,
        0 <= j <= 118,
        symbol(i) == symbol(j),
    ensures
        i == j,
{
    lemma_symbol_number(i);
    lemma_symbol_number(j);
    let si = symbol(i);
    let sj = symbol(j);
    assert(si[0] == sj[0]);
    assert(symbol_first(i) == symbol_first(j));
    if symbol_second(i) == ' ' {
        assert(sj.len() == 1);
    } else {
        assert(sj.len() == 2);
        assert(si[1] == sj[1]);
    }
    assert(symbol_second(i) == symbol_second(j));
}

/// The chemical symbol of an atomic number, `n` for 0, up to `Og` for 118.
pub fn atomic_symbol(z: u32) -> (r: Option<String>)
    ensures
        z <= 118 ==> (r matches Some(s) && s@ == symbol(z as int)),
        z > 118 ==> r is None,
{
    if z > 118 {
        return None;
    }
    let (c0, c1) = symbol_letters_exec(z);
    let mut s = String::new();
    string_push(&mut s, c0);
    if c1 != ' ' {
        string_push(&mut s, c1);
    }
    assert(s@ =~= symbol(z as int));
    Some(s)
}

/// The atomic number of a chemical symbol, e.g. `"Am"` gives 95.
pub fn atomic_number(symbol: &str) -> (r: Option<u32>)
    ensures
        r matches Some(z) ==> atomic_number_spec(symbol@) == Some(z as int),
        r is None ==> atomic_number_spec(symbol@) is None,
{
    let v = chars_of(symbol);
    atomic_number_chars(&v)
}

/// [`atomic_number`] of a symbol given as characters.
pub fn atomic_number_chars(v: &Vec<char>) -> (r: Option<u32>)
    ensures
        r matches Some(z) ==> atomic_number_spec(v@) == Some(z as int),
        r is None ==> atomic_number_spec(v@) is None,
{
    let ghost s = v@;
    let mut z: u32 = 0;
    while z <= 118
        invariant
            z <= 119,
            s == v@,
            atomic_number_spec(s) == find_symbol(s, z as int),
        decreases 119 - z,
    {
        let (c0, c1) = symbol_letters_exec(z);
        let same = if c1 == ' ' {
            v.len() == 1 && v[0] == c0
        } else {
            v.len() == 2 && v[0] == c0 && v[1] == c1
        };
        if same {
            assert(symbol(z as int) =~= s);
            return Some(z);
        }
        assert(symbol(z as int) != s) by {
            if symbol(z as int) == s {
                assert(s[0] == c0);
                if c1 != ' ' {
                    assert(s[1] == c1);
                }
            }
        }
        z = z + 1;
    }
    None
}

/// A symbol's atomic number is the one it was looked up by.
pub proof fn lemma_atomic_number_of_symbol(z: int)
    requires
        0 <= z <= 118,
    ensures
        atomic_number_spec(symbol(z)) == Some(z),
{
    lemma_find_symbol(symbol(z), 0, z);
}

proof fn lemma_find_symbol(s: Seq<char>, from: int, z: int)
    requires
        0 <= from <= z <= 118,
        s == symbol(z),
    ensures
        find_symbol(s, from) == Some(z),
    decreases z - from,
{
    if from < z {
        if symbol(from) == s {
            lemma_symbols_distinct(from, z);
        }
        lemma_find_symbol(s, from + 1, z);
    }
}

/// The symbol of `z`, or `?` where there is no element `z`.
pub open spec fn symbol_or_unknown(z: int) -> Seq<char> {
    if 0 <= z <= 118 {
        symbol(z)
    } else {
        seq!['?']
    }
}

/// A nuclide's name in GNDS convention: the symbol, the mass number, and
/// `_m` and the state where the nuclide is metastable.
pub open spec fn gnds_spec(z: int, a: int, m: int) -> Seq<char> {
    symbol_or_unknown(z) + decimal(a as nat) + if m > 0 {
        seq!['_', 'm'] + decimal(m as nat)
    } else {
        Seq::empty()
    }
}

/// A nuclide's name in GNDS convention, e.g. `gnds_name(95, 242, 1)` gives
/// `"Am242_m1"`.
pub fn gnds_name(z: u32, a: u32, m: u32) -> (r: String)
    ensures
        r@ == gnds_spec(z as int, a as int, m as int),
{
    let mut s = match atomic_symbol(z) {
        Some(sym) => sym,
        None => {
            let mut q = String::new();
            string_push(&mut q, '?');
            q
        },
    };
    let ghost s0 = s@;
    assert(s0 == symbol_or_unknown(z as int));
    push_decimal(&mut s, a as u64);
    if m > 0 {
        string_push(&mut s, '_');
        string_push(&mut s, 'm');
        push_decimal(&mut s, m as u64);
        assert(s@ =~= s0 + decimal(a as nat) + (seq!['_', 'm'] + decimal(m as nat)));
    } else {
        assert(s@ =~= s0 + decimal(a as nat) + Seq::<char>::empty());
    }
    s
}

pub open spec fn is_upper(c: char) -> bool {
    'A' <= c <= 'Z'
}

pub open spec fn is_lower(c: char) -> bool {
    'a' <= c <= 'z'
}

/// The end of the run of lower-case letters that starts at `i`.
pub open spec fn lower_run(s: Seq<char>, i: int) -> int
    decreases s.len() - i,
{
    if 0 <= i < s.len() && is_lower(s[i]) {
        lower_run(s, i + 1)
    } else {
        i
    }
}

/// The end of the run of decimal digits that starts at `i`.
pub open spec fn digit_run(s: Seq<char>, i: int) -> int
    decreases s.len() - i,
{
    if 0 <= i < s.len() && is_digit(s[i]) {
        digit_run(s, i + 1)
    } else {
        i
    }
}

/// Why a string is not a nuclide: it does not have the shape of a GNDS
/// name, or its symbol names no element.
pub ghost enum NameFailure {
    Malformed,
    UnknownSymbol(Seq<char>),
}

/// The metastable state a name ends with: nothing at all, or `_m` or `_e`
/// and a number that fits a `u32`.
pub open spec fn state_suffix(rest: Seq<char>) -> Option<int> {
    if rest.len() == 0 {
        Some(0)
    } else if rest.len() >= 2 && rest[0] == '_' && (rest[1] == 'm' || rest[1] == 'e') {
        let d = rest.subrange(2, rest.len() as int);
        if d.len() > 0 && all_digits(d) && digits_value(d) <= u32::MAX {
            Some(digits_value(d))
        } else {
            None
        }
    } else {
        None
    }
}

/// The atomic number, mass number and metastable state a GNDS name gives:
/// an upper-case letter (or a lone `n`) and lower-case ones, the mass number,
/// and an optional `_m<n>` or `_e<n>` state.
pub open spec fn zam_spec(s: Seq<char>) -> Result<(int, int, int), NameFailure> {
    if s.len() == 0 || !(is_upper(s[0]) || s[0] == 'n') {
        Err(NameFailure::Malformed)
    } else {
        let i = lower_run(s, 1);
        let j = digit_run(s, i);
        let digits = s.subrange(i, j);
        if j == i || digits_value(digits) > u32::MAX {
            Err(NameFailure::Malformed)
        } else {
            match state_suffix(s.subrange(j, s.len() as int)) {
                None => Err(NameFailure::Malformed),
                Some(m) => match atomic_number_spec(s.subrange(0, i)) {
                    None => Err(NameFailure::UnknownSymbol(s.subrange(0, i))),
                    Some(z) => Ok((z, digits_value(digits), m)),
                },
            }
        }
    }
}

/// Whether an error is the one a name failure describes.
pub open spec fn name_failure_is(e: Error, f: NameFailure, name: Seq<char>) -> bool {
    match f {
        NameFailure::Malformed => e matches Error::BadNuclideName { name: n } && n@ == name,
        NameFailure::UnknownSymbol(sym) => e matches Error::UnknownElement { symbol } && symbol@
            == sym,
    }
}

proof fn lemma_lower_run(s: Seq<char>, i: int)
    requires
        0 <= i <= s.len(),
    ensures
        i <= lower_run(s, i) <= s.len(),
        forall|k: int| i <= k < lower_run(s, i) ==> is_lower(#[trigger] s[k]),
        lower_run(s, i) < s.len() ==> !is_lower(s[lower_run(s, i)]),
    decreases s.len() - i,
{
    if i < s.len() && is_lower(s[i]) {
        lemma_lower_run(s, i + 1);
    }
}

proof fn lemma_digit_run(s: Seq<char>, i: int)
    requires
        0 <= i <= s.len(),
    ensures
        i <= digit_run(s, i) <= s.len(),
        forall|k: int| i <= k < digit_run(s, i) ==> is_digit(#[trigger] s[k]),
        digit_run(s, i) < s.len() ==> !is_digit(s[digit_run(s, i)]),
    decreases s.len() - i,
{
    if i < s.len() && is_digit(s[i]) {
        lemma_digit_run(s, i + 1);
    }
}

/// The atomic number, mass number and metastable state of a GNDS name.
///
/// The inverse of [`gnds_name`]; `"Am242_m1"` gives `(95, 242, 1)`.
pub fn zam(name: &str) -> (r: Result<(u32, u32, u32), Error>)
    ensures
        match zam_spec(name@) {
            Ok((z, a, m)) => r == Ok::<(u32, u32, u32), Error>((z as u32, a as u32, m as u32)),
            Err(f) => r matches Err(e) && name_failure_is(e, f, name@),
        },
{
    let v = chars_of(name);
    let ghost s = v@;
    if v.len() == 0 || !(('A' <= v[0] && v[0] <= 'Z') || v[0] == 'n') {
        return Err(Error::BadNuclideName { name: name.to_owned() });
    }
    let mut i: usize = 1;
    while i < v.len() && 'a' <= v[i] && v[i] <= 'z'
        invariant
            1 <= i <= v.len(),
            lower_run(s, 1) == lower_run(s, i as int),
            s == v@,
        decreases v.len() - i,
    {
        assert(is_lower(s[i as int]));
        assert(lower_run(s, i as int) == lower_run(s, i + 1));
        i = i + 1;
    }
    let start = i;
    while i < v.len() && '0' <= v[i] && v[i] <= '9'
        invariant
            start <= i <= v.len(),
            digit_run(s, start as int) == digit_run(s, i as int),
            s == v@,
        decreases v.len() - i,
    {
        assert(is_digit(s[i as int]));
        assert(digit_run(s, i as int) == digit_run(s, i + 1));
        i = i + 1;
    }
    proof {
        lemma_digit_run(s, start as int);
    }
    if i == start {
        return Err(Error::BadNuclideName { name: name.to_owned() });
    }
    let a = match digits_upto(&v, start, i, 0xffff_ffff) {
        Some(a) => a,
        None => {
            assert(all_digits(s.subrange(start as int, i as int)));
            return Err(Error::BadNuclideName { name: name.to_owned() });
        },
    };
    let ghost rest = s.subrange(i as int, s.len() as int);
    let metastable: u64 = if i == v.len() {
        0
    } else {
        if !(v.len() - i >= 2 && v[i] == '_' && (v[i + 1] == 'm' || v[i + 1] == 'e')) {
            return Err(Error::BadNuclideName { name: name.to_owned() });
        }
        assert(rest.subrange(2, rest.len() as int) == s.subrange(i + 2, s.len() as int));
        if i + 2 == v.len() {
            return Err(Error::BadNuclideName { name: name.to_owned() });
        }
        match digits_upto(&v, i + 2, v.len(), 0xffff_ffff) {
            Some(m) => m,
            None => {
                return Err(Error::BadNuclideName { name: name.to_owned() });
            },
        }
    };
    assert(state_suffix(rest) == Some(metastable as int));
    let symbol = slice_chars(&v, 0, start);
    match atomic_number_chars(&symbol) {
        Some(z) => Ok((z, a as u32, metastable as u32)),
        None => Err(Error::UnknownElement { symbol: string_from_chars(&symbol) }),
    }
}

/// A symbol is found, if at all, at an atomic number from `from` to 118.
proof fn lemma_find_symbol_range(s: Seq<char>, from: int)
    ensures
        find_symbol(s, from) matches Some(z) ==> from <= z <= 118,
    decreases 119 - from,
{
    if 0 <= from <= 118 && symbol(from) != s {
        lemma_find_symbol_range(s, from + 1);
    }
}

/// What [`zam`] reads fits its `u32` results, and the atomic number is an
/// element's.
pub proof fn lemma_zam_ranges(s: Seq<char>)
    ensures
        zam_spec(s) matches Ok((z, a, m)) ==> 0 <= z <= 118 && 0 <= a <= u32::MAX && 0 <= m
            <= u32::MAX,
{
    if let Ok((z, a, m)) = zam_spec(s) {
        let i = lower_run(s, 1);
        lemma_lower_run(s, 1);
        lemma_digit_run(s, i);
        let j = digit_run(s, i);
        assert(all_digits(s.subrange(i, j)));
        lemma_digits_value_nonneg(s.subrange(i, j));
        lemma_find_symbol_range(s.subrange(0, i), 0);
        let rest = s.subrange(j, s.len() as int);
        if rest.len() > 0 {
            lemma_digits_value_nonneg(rest.subrange(2, rest.len() as int));
        }
    }
}

/// [`zam`] reads back every name [`gnds_name`] writes.
pub proof fn lemma_zam_gnds_name(z: u32, a: u32, m: u32)
    requires
        z <= 118,
    ensures
        zam_spec(gnds_spec(z as int, a as int, m as int)) == Ok::<(int, int, int), NameFailure>(
            (z as int, a as int, m as int),
        ),
{
    let sym = symbol(z as int);
    let da = decimal(a as nat);
    let dm = decimal(m as nat);
    let tail: Seq<char> = if m > 0 {
        seq!['_', 'm'] + dm
    } else {
        Seq::empty()
    };
    let s = gnds_spec(z as int, a as int, m as int);
    assert(s == sym + da + tail);
    lemma_symbol_number(z as int);
    lemma_decimal_digits(a as nat);
    lemma_decimal_digits(m as nat);
    let i = sym.len() as int;
    // The symbol is an upper-case letter, or n, and then lower-case ones.
    assert(s[0] == sym[0]);
    assert(is_upper(s[0]) || s[0] == 'n');
    lemma_lower_run(s, 1);
    if i == 2 {
        assert(s[1] == sym[1]);
        assert(is_lower(s[1]));
    }
    assert(s[i] == da[0]);
    assert(is_digit(da[0]));
    assert(!is_lower(s[i]));
    lemma_lower_stops(s, 1, i);
    assert(lower_run(s, 1) == i);
    let j = i + da.len();
    lemma_digit_run_over(s, i, j);
    assert(s.subrange(i, j) == da);
    assert(s.subrange(j, s.len() as int) == tail);
    if m > 0 {
        assert(tail.subrange(2, tail.len() as int) == dm);
    }
    assert(s.subrange(0, i) == sym);
    lemma_atomic_number_of_symbol(z as int);
}

/// The run of lower-case letters from `from` ends at `i`.
proof fn lemma_lower_stops(s: Seq<char>, from: int, i: int)
    requires
        0 <= from <= i <= s.len(),
        forall|k: int| from <= k < i ==> is_lower(#[trigger] s[k]),
        i < s.len() ==> !is_lower(s[i]),
    ensures
        lower_run(s, from) == i,
    decreases i - from,
{
    if from < i {
        lemma_lower_stops(s, from + 1, i);
    }
}

/// The run of digits from `i` covers the digits written there.
proof fn lemma_digit_run_over(s: Seq<char>, i: int, j: int)
    requires
        0 <= i <= j <= s.len(),
        forall|k: int| i <= k < j ==> is_digit(#[trigger] s[k]),
        j < s.len() ==> !is_digit(s[j]),
    ensures
        digit_run(s, i) == j,
    decreases j - i,
{
    if i < j {
        lemma_digit_run_over(s, i + 1, j);
    }
}

/// The reactions MT is the sum of, from ENDF-102, in the order the format
/// lists them.
pub open spec fn sum_rule_spec(mt: i32) -> Option<Seq<i32>> {
    match mt {
        1 => Some(seq![2i32, 3i32]),
        3 => Some(seq![4i32, 5i32, 11i32, 16i32, 17i32, 22i32, 23i32, 24i32, 25i32, 27i32, 28i32, 29i32, 30i32, 32i32, 33i32, 34i32, 35i32, 36i32, 37i32, 41i32, 42i32, 44i32, 45i32, 152i32, 153i32, 154i32, 156i32, 157i32, 158i32, 159i32, 160i32, 161i32, 162i32, 163i32, 164i32, 165i32, 166i32, 167i32, 168i32, 169i32, 170i32, 171i32, 172i32, 173i32, 174i32, 175i32, 176i32, 177i32, 178i32, 179i32, 180i32, 181i32, 183i32, 184i32, 185i32, 186i32, 187i32, 188i32, 189i32, 190i32, 194i32, 195i32, 196i32, 198i32, 199i32, 200i32]),
        4 => Some(seq![50i32, 51i32, 52i32, 53i32, 54i32, 55i32, 56i32, 57i32, 58i32, 59i32, 60i32, 61i32, 62i32, 63i32, 64i32, 65i32, 66i32, 67i32, 68i32, 69i32, 70i32, 71i32, 72i32, 73i32, 74i32, 75i32, 76i32, 77i32, 78i32, 79i32, 80i32, 81i32, 82i32, 83i32, 84i32, 85i32, 86i32, 87i32, 88i32, 89i32, 90i32, 91i32]),
        16 => Some(seq![875i32, 876i32, 877i32, 878i32, 879i32, 880i32, 881i32, 882i32, 883i32, 884i32, 885i32, 886i32, 887i32, 888i32, 889i32, 890i32, 891i32]),
        18 => Some(seq![19i32, 20i32, 21i32, 38i32]),
        27 => Some(seq![18i32, 101i32]),
        101 => Some(seq![102i32, 103i32, 104i32, 105i32, 106i32, 107i32, 108i32, 109i32, 111i32, 112i32, 113i32, 114i32, 115i32, 116i32, 117i32, 155i32, 182i32, 191i32, 192i32, 193i32, 197i32]),
        103 => Some(seq![600i32, 601i32, 602i32, 603i32, 604i32, 605i32, 606i32, 607i32, 608i32, 609i32, 610i32, 611i32, 612i32, 613i32, 614i32, 615i32, 616i32, 617i32, 618i32, 619i32, 620i32, 621i32, 622i32, 623i32, 624i32, 625i32, 626i32, 627i32, 628i32, 629i32, 630i32, 631i32, 632i32, 633i32, 634i32, 635i32, 636i32, 637i32, 638i32, 639i32, 640i32, 641i32, 642i32, 643i32, 644i32, 645i32, 646i32, 647i32, 648i32, 649i32]),
        104 => Some(seq![650i32, 651i32, 652i32, 653i32, 654i32, 655i32, 656i32, 657i32, 658i32, 659i32, 660i32, 661i32, 662i32, 663i32, 664i32, 665i32, 666i32, 667i32, 668i32, 669i32, 670i32, 671i32, 672i32, 673i32, 674i32, 675i32, 676i32, 677i32, 678i32, 679i32, 680i32, 681i32, 682i32, 683i32, 684i32, 685i32, 686i32, 687i32, 688i32, 689i32, 690i32, 691i32, 692i32, 693i32, 694i32, 695i32, 696i32, 697i32, 698i32, 699i32]),
        105 => Some(seq![700i32, 701i32, 702i32, 703i32, 704i32, 705i32, 706i32, 707i32, 708i32, 709i32, 710i32, 711i32, 712i32, 713i32, 714i32, 715i32, 716i32, 717i32, 718i32, 719i32, 720i32, 721i32, 722i32, 723i32, 724i32, 725i32, 726i32, 727i32, 728i32, 729i32, 730i32, 731i32, 732i32, 733i32, 734i32, 735i32, 736i32, 737i32, 738i32, 739i32, 740i32, 741i32, 742i32, 743i32, 744i32, 745i32, 746i32, 747i32, 748i32, 749i32]),
        106 => Some(seq![750i32, 751i32, 752i32, 753i32, 754i32, 755i32, 756i32, 757i32, 758i32, 759i32, 760i32, 761i32, 762i32, 763i32, 764i32, 765i32, 766i32, 767i32, 768i32, 769i32, 770i32, 771i32, 772i32, 773i32, 774i32, 775i32, 776i32, 777i32, 778i32, 779i32, 780i32, 781i32, 782i32, 783i32, 784i32, 785i32, 786i32, 787i32, 788i32, 789i32, 790i32, 791i32, 792i32, 793i32, 794i32, 795i32, 796i32, 797i32, 798i32, 799i32]),
        107 => Some(seq![800i32, 801i32, 802i32, 803i32, 804i32, 805i32, 806i32, 807i32, 808i32, 809i32, 810i32, 811i32, 812i32, 813i32, 814i32, 815i32, 816i32, 817i32, 818i32, 819i32, 820i32, 821i32, 822i32, 823i32, 824i32, 825i32, 826i32, 827i32, 828i32, 829i32, 830i32, 831i32, 832i32, 833i32, 834i32, 835i32, 836i32, 837i32, 838i32, 839i32, 840i32, 841i32, 842i32, 843i32, 844i32, 845i32, 846i32, 847i32, 848i32, 849i32]),
        501 => Some(seq![502i32, 504i32, 516i32, 522i32]),
        516 => Some(seq![515i32, 517i32]),
        522 => Some(seq![534i32, 535i32, 536i32, 537i32, 538i32, 539i32, 540i32, 541i32, 542i32, 543i32, 544i32, 545i32, 546i32, 547i32, 548i32, 549i32, 550i32, 551i32, 552i32, 553i32, 554i32, 555i32, 556i32, 557i32, 558i32, 559i32, 560i32, 561i32, 562i32, 563i32, 564i32, 565i32, 566i32, 567i32, 568i32, 569i32, 570i32, 571i32, 572i32]),
        _ => None,
    }
}

/// The reactions MT is the sum of, if it is a summed reaction.
pub fn sum_rule(mt: i32) -> (r: Option<Vec<i32>>)
    ensures
        r matches Some(v) ==> sum_rule_spec(mt) == Some(v@),
        r is None ==> sum_rule_spec(mt) is None,
{
    match mt {
        1 => {
            let v: Vec<i32> = vec![2, 3];
            assert(v@ == seq![2i32, 3i32]);
            Some(v)
        },
        3 => {
            let v: Vec<i32> = vec![4, 5, 11, 16, 17, 22, 23, 24, 25, 27, 28, 29, 30, 32, 33, 34, 35, 36, 37, 41, 42, 44, 45, 152, 153, 154, 156, 157, 158, 159, 160, 161, 162, 163, 164, 165, 166, 167, 168, 169, 170, 171, 172, 173, 174, 175, 176, 177, 178, 179, 180, 181, 183, 184, 185, 186, 187, 188, 189, 190, 194, 195, 196, 198, 199, 200];
            assert(v@ == seq![4i32, 5i32, 11i32, 16i32, 17i32, 22i32, 23i32, 24i32, 25i32, 27i32, 28i32, 29i32, 30i32, 32i32, 33i32, 34i32, 35i32, 36i32, 37i32, 41i32, 42i32, 44i32, 45i32, 152i32, 153i32, 154i32, 156i32, 157i32, 158i32, 159i32, 160i32, 161i32, 162i32, 163i32, 164i32, 165i32, 166i32, 167i32, 168i32, 169i32, 170i32, 171i32, 172i32, 173i32, 174i32, 175i32, 176i32, 177i32, 178i32, 179i32, 180i32, 181i32, 183i32, 184i32, 185i32, 186i32, 187i32, 188i32, 189i32, 190i32, 194i32, 195i32, 196i32, 198i32, 199i32, 200i32]);
            Some(v)
        },
        4 => {
            let v: Vec<i32> = vec![50, 51, 52, 53, 54, 55, 56, 57, 58, 59, 60, 61, 62, 63, 64, 65, 66, 67, 68, 69, 70, 71, 72, 73, 74, 75, 76, 77, 78, 79, 80, 81, 82, 83, 84, 85, 86, 87, 88, 89, 90, 91];
            assert(v@ == seq![50i32, 51i32, 52i32, 53i32, 54i32, 55i32, 56i32, 57i32, 58i32, 59i32, 60i32, 61i32, 62i32, 63i32, 64i32, 65i32, 66i32, 67i32, 68i32, 69i32, 70i32, 71i32, 72i32, 73i32, 74i32, 75i32, 76i32, 77i32, 78i32, 79i32, 80i32, 81i32, 82i32, 83i32, 84i32, 85i32, 86i32, 87i32, 88i32, 89i32, 90i32, 91i32]);
            Some(v)
        },
        16 => {
            let v: Vec<i32> = vec![875, 876, 877, 878, 879, 880, 881, 882, 883, 884, 885, 886, 887, 888, 889, 890, 891];
            assert(v@ == seq![875i32, 876i32, 877i32, 878i32, 879i32, 880i32, 881i32, 882i32, 883i32, 884i32, 885i32, 886i32, 887i32, 888i32, 889i32, 890i32, 891i32]);
            Some(v)
        },
        18 => {
            let v: Vec<i32> = vec![19, 20, 21, 38];
            assert(v@ == seq![19i32, 20i32, 21i32, 38i32]);
            Some(v)
        },
        27 => {
            let v: Vec<i32> = vec![18, 101];
            assert(v@ == seq![18i32, 101i32]);
            Some(v)
        },
        101 => {
            let v: Vec<i32> = vec![102, 103, 104, 105, 106, 107, 108, 109, 111, 112, 113, 114, 115, 116, 117, 155, 182, 191, 192, 193, 197];
            assert(v@ == seq![102i32, 103i32, 104i32, 105i32, 106i32, 107i32, 108i32, 109i32, 111i32, 112i32, 113i32, 114i32, 115i32, 116i32, 117i32, 155i32, 182i32, 191i32, 192i32, 193i32, 197i32]);
            Some(v)
        },
        103 => {
            let v: Vec<i32> = vec![600, 601, 602, 603, 604, 605, 606, 607, 608, 609, 610, 611, 612, 613, 614, 615, 616, 617, 618, 619, 620, 621, 622, 623, 624, 625, 626, 627, 628, 629, 630, 631, 632, 633, 634, 635, 636, 637, 638, 639, 640, 641, 642, 643, 644, 645, 646, 647, 648, 649];
            assert(v@ == seq![600i32, 601i32, 602i32, 603i32, 604i32, 605i32, 606i32, 607i32, 608i32, 609i32, 610i32, 611i32, 612i32, 613i32, 614i32, 615i32, 616i32, 617i32, 618i32, 619i32, 620i32, 621i32, 622i32, 623i32, 624i32, 625i32, 626i32, 627i32, 628i32, 629i32, 630i32, 631i32, 632i32, 633i32, 634i32, 635i32, 636i32, 637i32, 638i32, 639i32, 640i32, 641i32, 642i32, 643i32, 644i32, 645i32, 646i32, 647i32, 648i32, 649i32]);
            Some(v)
        },
        104 => {
            let v: Vec<i32> = vec![650, 651, 652, 653, 654, 655, 656, 657, 658, 659, 660, 661, 662, 663, 664, 665, 666, 667, 668, 669, 670, 671, 672, 673, 674, 675, 676, 677, 678, 679, 680, 681, 682, 683, 684, 685, 686, 687, 688, 689, 690, 691, 692, 693, 694, 695, 696, 697, 698, 699];
            assert(v@ == seq![650i32, 651i32, 652i32, 653i32, 654i32, 655i32, 656i32, 657i32, 658i32, 659i32, 660i32, 661i32, 662i32, 663i32, 664i32, 665i32, 666i32, 667i32, 668i32, 669i32, 670i32, 671i32, 672i32, 673i32, 674i32, 675i32, 676i32, 677i32, 678i32, 679i32, 680i32, 681i32, 682i32, 683i32, 684i32, 685i32, 686i32, 687i32, 688i32, 689i32, 690i32, 691i32, 692i32, 693i32, 694i32, 695i32, 696i32, 697i32, 698i32, 699i32]);
            Some(v)
        },
        105 => {
            let v: Vec<i32> = vec![700, 701, 702, 703, 704, 705, 706, 707, 708, 709, 710, 711, 712, 713, 714, 715, 716, 717, 718, 719, 720, 721, 722, 723, 724, 725, 726, 727, 728, 729, 730, 731, 732, 733, 734, 735, 736, 737, 738, 739, 740, 741, 742, 743, 744, 745, 746, 747, 748, 749];
            assert(v@ == seq![700i32, 701i32, 702i32, 703i32, 704i32, 705i32, 706i32, 707i32, 708i32, 709i32, 710i32, 711i32, 712i32, 713i32, 714i32, 715i32, 716i32, 717i32, 718i32, 719i32, 720i32, 721i32, 722i32, 723i32, 724i32, 725i32, 726i32, 727i32, 728i32, 729i32, 730i32, 731i32, 732i32, 733i32, 734i32, 735i32, 736i32, 737i32, 738i32, 739i32, 740i32, 741i32, 742i32, 743i32, 744i32, 745i32, 746i32, 747i32, 748i32, 749i32]);
            Some(v)
        },
        106 => {
            let v: Vec<i32> = vec![750, 751, 752, 753, 754, 755, 756, 757, 758, 759, 760, 761, 762, 763, 764, 765, 766, 767, 768, 769, 770, 771, 772, 773, 774, 775, 776, 777, 778, 779, 780, 781, 782, 783, 784, 785, 786, 787, 788, 789, 790, 791, 792, 793, 794, 795, 796, 797, 798, 799];
            assert(v@ == seq![750i32, 751i32, 752i32, 753i32, 754i32, 755i32, 756i32, 757i32, 758i32, 759i32, 760i32, 761i32, 762i32, 763i32, 764i32, 765i32, 766i32, 767i32, 768i32, 769i32, 770i32, 771i32, 772i32, 773i32, 774i32, 775i32, 776i32, 777i32, 778i32, 779i32, 780i32, 781i32, 782i32, 783i32, 784i32, 785i32, 786i32, 787i32, 788i32, 789i32, 790i32, 791i32, 792i32, 793i32, 794i32, 795i32, 796i32, 797i32, 798i32, 799i32]);
            Some(v)
        },
        107 => {
            let v: Vec<i32> = vec![800, 801, 802, 803, 804, 805, 806, 807, 808, 809, 810, 811, 812, 813, 814, 815, 816, 817, 818, 819, 820, 821, 822, 823, 824, 825, 826, 827, 828, 829, 830, 831, 832, 833, 834, 835, 836, 837, 838, 839, 840, 841, 842, 843, 844, 845, 846, 847, 848, 849];
            assert(v@ == seq![800i32, 801i32, 802i32, 803i32, 804i32, 805i32, 806i32, 807i32, 808i32, 809i32, 810i32, 811i32, 812i32, 813i32, 814i32, 815i32, 816i32, 817i32, 818i32, 819i32, 820i32, 821i32, 822i32, 823i32, 824i32, 825i32, 826i32, 827i32, 828i32, 829i32, 830i32, 831i32, 832i32, 833i32, 834i32, 835i32, 836i32, 837i32, 838i32, 839i32, 840i32, 841i32, 842i32, 843i32, 844i32, 845i32, 846i32, 847i32, 848i32, 849i32]);
            Some(v)
        },
        501 => {
            let v: Vec<i32> = vec![502, 504, 516, 522];
            assert(v@ == seq![502i32, 504i32, 516i32, 522i32]);
            Some(v)
        },
        516 => {
            let v: Vec<i32> = vec![515, 517];
            assert(v@ == seq![515i32, 517i32]);
            Some(v)
        },
        522 => {
            let v: Vec<i32> = vec![534, 535, 536, 537, 538, 539, 540, 541, 542, 543, 544, 545, 546, 547, 548, 549, 550, 551, 552, 553, 554, 555, 556, 557, 558, 559, 560, 561, 562, 563, 564, 565, 566, 567, 568, 569, 570, 571, 572];
            assert(v@ == seq![534i32, 535i32, 536i32, 537i32, 538i32, 539i32, 540i32, 541i32, 542i32, 543i32, 544i32, 545i32, 546i32, 547i32, 548i32, 549i32, 550i32, 551i32, 552i32, 553i32, 554i32, 555i32, 556i32, 557i32, 558i32, 559i32, 560i32, 561i32, 562i32, 563i32, 564i32, 565i32, 566i32, 567i32, 568i32, 569i32, 570i32, 571i32, 572i32]);
            Some(v)
        },
        _ => None,
    }
}


/// How many sum rules deep an MT sits: a reaction that is no sum has rank
/// 0, and every reaction a sum lists has a lower rank than the sum.
pub open spec fn rule_rank(mt: i32) -> nat {
    if mt == 1 {
        5
    } else if mt == 3 {
        4
    } else if mt == 27 {
        3
    } else if mt == 101 || mt == 501 {
        2
    } else if mt == 4 || mt == 16 || mt == 18 || (103 <= mt <= 107) || mt == 516 || mt == 522 {
        1
    } else {
        0
    }
}

/// The sum rules only ever point down: each reaction a sum lists has a
/// lower rank than the sum itself, so unfolding them ends.
pub proof fn lemma_rules_point_down(mt: i32)
    ensures
        sum_rule_spec(mt) matches Some(rule) ==> forall|i: int|
            0 <= i < rule.len() ==> rule_rank(#[trigger] rule[i]) < rule_rank(mt),
{
    if let Some(rule) = sum_rule_spec(mt) {
        assert forall|i: int| 0 <= i < rule.len() implies rule_rank(#[trigger] rule[i])
            < rule_rank(mt) by {
        }
    }
}

/// The reactions of `present` that make up `mt`: its sum rule unfolded
/// as far as it goes, keeping only what is present; `mt` itself if no
/// component is present but it is; nothing otherwise.
pub open spec fn components_spec(present: Seq<i32>, mt: i32) -> Seq<i32>
    decreases rule_rank(mt), 1nat, 0nat,
{
    let parts = match sum_rule_spec(mt) {
        Some(rule) => parts_spec(present, mt, rule.len()),
        None => Seq::empty(),
    };
    if parts.len() > 0 {
        parts
    } else if present.contains(mt) {
        seq![mt]
    } else {
        Seq::empty()
    }
}

/// The components of the first `n` reactions that the sum rule of `mt`
/// lists, one after the other.
pub open spec fn parts_spec(present: Seq<i32>, mt: i32, n: nat) -> Seq<i32>
    decreases rule_rank(mt), 0nat, n,
{
    match sum_rule_spec(mt) {
        Some(rule) => if 0 < n <= rule.len() {
            proof {
                lemma_rules_point_down(mt);
            }
            parts_spec(present, mt, (n - 1) as nat) + components_spec(present, rule[n - 1])
        } else {
            Seq::empty()
        },
        None => Seq::empty(),
    }
}

/// Every MT that the components of `mt` name is present.
pub proof fn lemma_components_present(present: Seq<i32>, mt: i32)
    ensures
        forall|i: int| 0 <= i < components_spec(present, mt).len()
            ==> present.contains(#[trigger] components_spec(present, mt)[i]),
    decreases rule_rank(mt), 1nat, 0nat,
{
    let parts = match sum_rule_spec(mt) {
        Some(rule) => parts_spec(present, mt, rule.len()),
        None => Seq::empty(),
    };
    if let Some(rule) = sum_rule_spec(mt) {
        lemma_parts_present(present, mt, rule.len());
    }
    let c = components_spec(present, mt);
    if parts.len() > 0 {
        assert(c == parts);
    } else if present.contains(mt) {
        assert(c == seq![mt]);
        assert forall|i: int| 0 <= i < c.len() implies present.contains(#[trigger] c[i]) by {
            assert(c[i] == mt);
        }
    } else {
        assert(c.len() == 0);
    }
}

proof fn lemma_parts_present(present: Seq<i32>, mt: i32, n: nat)
    ensures
        forall|i: int| 0 <= i < parts_spec(present, mt, n).len()
            ==> present.contains(#[trigger] parts_spec(present, mt, n)[i]),
    decreases rule_rank(mt), 0nat, n,
{
    if let Some(rule) = sum_rule_spec(mt) {
        if 0 < n <= rule.len() {
            lemma_rules_point_down(mt);
            lemma_parts_present(present, mt, (n - 1) as nat);
            lemma_components_present(present, rule[n - 1]);
            let a = parts_spec(present, mt, (n - 1) as nat);
            let b = components_spec(present, rule[n - 1]);
            assert(parts_spec(present, mt, n) == a + b);
            assert forall|i: int| 0 <= i < (a + b).len() implies present.contains(
                #[trigger] (a + b)[i],
            ) by {
                if i >= a.len() {
                    assert((a + b)[i] == b[i - a.len()]);
                }
            }
        }
    }
}

/// Whether `mt` is one of `present`.
pub(crate) fn has_mt(present: &[i32], mt: i32) -> (r: bool)
    ensures
        r == present@.contains(mt),
{
    let mut i: usize = 0;
    while i < present.len()
        invariant
            i <= present.len(),
            forall|k: int| 0 <= k < i ==> present@[k] != mt,
        decreases present.len() - i,
    {
        if present[i] == mt {
            assert(present@[i as int] == mt);
            return true;
        }
        i = i + 1;
    }
    false
}

/// Which of the reactions `present` make up a redundant one, `mt`.
///
/// The sum rules are applied recursively, and only reactions in `present`
/// are returned. An MT that is not a sum, or whose components are all
/// absent, gives itself back, or nothing if it is absent too.
pub fn reaction_components(present: &[i32], mt: i32) -> (r: Vec<i32>)
    ensures
        r@ == components_spec(present@, mt),
        forall|i: int| 0 <= i < r.len() ==> present@.contains(#[trigger] r@[i]),
        sum_rule_spec(mt) is None ==> r@ == (if present@.contains(mt) {
            seq![mt]
        } else {
            Seq::empty()
        }),
    decreases rule_rank(mt),
{
    let mut mts: Vec<i32> = Vec::new();
    if let Some(rule) = sum_rule(mt) {
        let ghost full = rule@;
        let mut i: usize = 0;
        while i < rule.len()
            invariant
                sum_rule_spec(mt) == Some(full),
                rule@ == full,
                i <= rule.len(),
                mts@ == parts_spec(present@, mt, i as nat),
            decreases rule.len() - i,
        {
            proof {
                lemma_rules_point_down(mt);
            }
            let mut part = reaction_components(present, rule[i]);
            mts.append(&mut part);
            i = i + 1;
        }
    }
    proof {
        lemma_components_present(present@, mt);
    }
    if mts.len() > 0 {
        assert(mts@ == components_spec(present@, mt));
        assert forall|i: int| 0 <= i < mts.len() implies present@.contains(#[trigger] mts@[i]) by {
            assert(mts@[i] == components_spec(present@, mt)[i]);
        }
        return mts;
    }
    if has_mt(present, mt) {
        vec![mt]
    } else {
        Vec::new()
    }
}

} // verus!
