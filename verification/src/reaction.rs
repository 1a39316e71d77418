//! Reactions and their names.
//!
//! An ENDF evaluation scatters one reaction across several files; what is
//! read here is the naming: the MT numbers the format assigns, the names the
//! package gives them, and the aliases a reaction may be asked for by; and
//! which fission neutrons an evaluation gives, in what order, with which
//! yield and spectrum.

use vstd::prelude::*;
use vstd::string::*;

use crate::error::{Error, Result};
use crate::mf::mf1::{Mf1Mt452, Mf1Mt455, Nu};
use crate::mf::mf5::Mf5;
use crate::product::EmissionMode;
use crate::text::{
    chars_eq, chars_of, decimal, is_digit, lemma_decimal_digits, push_decimal_chars, str_eq, string_from_chars,
};

verus! {

broadcast use vstd::string::group_string_axioms;

/// The `i`-th of the reactions the format names outright: its MT and its
/// name. The level reactions are not here: their names follow from the MT
/// by [`level_family`].
pub open spec fn base_entry(i: int) -> (i32, Seq<char>) {
    if i == 0 {
        (1i32, seq!['(', 'n', ',', 't', 'o', 't', 'a', 'l', ')'])
    } else if i == 1 {
        (2i32, seq!['(', 'n', ',', 'e', 'l', 'a', 's', 't', 'i', 'c', ')'])
    } else if i == 2 {
        (3i32, seq!['(', 'n', ',', 'n', 'o', 'n', 'e', 'l', 'a', 's', 't', 'i', 'c', ')'])
    } else if i == 3 {
        (4i32, seq!['(', 'n', ',', 'l', 'e', 'v', 'e', 'l', ')'])
    } else if i == 4 {
        (5i32, seq!['(', 'n', ',', 'm', 'i', 's', 'c', ')'])
    } else if i == 5 {
        (11i32, seq!['(', 'n', ',', '2', 'n', 'd', ')'])
    } else if i == 6 {
        (16i32, seq!['(', 'n', ',', '2', 'n', ')'])
    } else if i == 7 {
        (17i32, seq!['(', 'n', ',', '3', 'n', ')'])
    } else if i == 8 {
        (18i32, seq!['(', 'n', ',', 'f', 'i', 's', 's', 'i', 'o', 'n', ')'])
    } else if i == 9 {
        (19i32, seq!['(', 'n', ',', 'f', ')'])
    } else if i == 10 {
        (20i32, seq!['(', 'n', ',', 'n', 'f', ')'])
    } else if i == 11 {
        (21i32, seq!['(', 'n', ',', '2', 'n', 'f', ')'])
    } else if i == 12 {
        (22i32, seq!['(', 'n', ',', 'n', 'a', ')'])
    } else if i == 13 {
        (23i32, seq!['(', 'n', ',', 'n', '3', 'a', ')'])
    } else if i == 14 {
        (24i32, seq!['(', 'n', ',', '2', 'n', 'a', ')'])
    } else if i == 15 {
        (25i32, seq!['(', 'n', ',', '3', 'n', 'a', ')'])
    } else if i == 16 {
        (27i32, seq!['(', 'n', ',', 'a', 'b', 's', 'o', 'r', 'p', 't', 'i', 'o', 'n', ')'])
    } else if i == 17 {
        (28i32, seq!['(', 'n', ',', 'n', 'p', ')'])
    } else if i == 18 {
        (29i32, seq!['(', 'n', ',', 'n', '2', 'a', ')'])
    } else if i == 19 {
        (30i32, seq!['(', 'n', ',', '2', 'n', '2', 'a', ')'])
    } else if i == 20 {
        (32i32, seq!['(', 'n', ',', 'n', 'd', ')'])
    } else if i == 21 {
        (33i32, seq!['(', 'n', ',', 'n', 't', ')'])
    } else if i == 22 {
        (34i32, seq!['(', 'n', ',', 'n', '3', 'H', 'e', ')'])
    } else if i == 23 {
        (35i32, seq!['(', 'n', ',', 'n', 'd', '2', 'a', ')'])
    } else if i == 24 {
        (36i32, seq!['(', 'n', ',', 'n', 't', '2', 'a', ')'])
    } else if i == 25 {
        (37i32, seq!['(', 'n', ',', '4', 'n', ')'])
    } else if i == 26 {
        (38i32, seq!['(', 'n', ',', '3', 'n', 'f', ')'])
    } else if i == 27 {
        (41i32, seq!['(', 'n', ',', '2', 'n', 'p', ')'])
    } else if i == 28 {
        (42i32, seq!['(', 'n', ',', '3', 'n', 'p', ')'])
    } else if i == 29 {
        (44i32, seq!['(', 'n', ',', 'n', '2', 'p', ')'])
    } else if i == 30 {
        (45i32, seq!['(', 'n', ',', 'n', 'p', 'a', ')'])
    } else if i == 31 {
        (91i32, seq!['(', 'n', ',', 'n', 'c', ')'])
    } else if i == 32 {
        (101i32, seq!['(', 'n', ',', 'd', 'i', 's', 'a', 'p', 'p', 'e', 'a', 'r', ')'])
    } else if i == 33 {
        (102i32, seq!['(', 'n', ',', 'g', 'a', 'm', 'm', 'a', ')'])
    } else if i == 34 {
        (103i32, seq!['(', 'n', ',', 'p', ')'])
    } else if i == 35 {
        (104i32, seq!['(', 'n', ',', 'd', ')'])
    } else if i == 36 {
        (105i32, seq!['(', 'n', ',', 't', ')'])
    } else if i == 37 {
        (106i32, seq!['(', 'n', ',', '3', 'H', 'e', ')'])
    } else if i == 38 {
        (107i32, seq!['(', 'n', ',', 'a', ')'])
    } else if i == 39 {
        (108i32, seq!['(', 'n', ',', '2', 'a', ')'])
    } else if i == 40 {
        (109i32, seq!['(', 'n', ',', '3', 'a', ')'])
    } else if i == 41 {
        (111i32, seq!['(', 'n', ',', '2', 'p', ')'])
    } else if i == 42 {
        (112i32, seq!['(', 'n', ',', 'p', 'a', ')'])
    } else if i == 43 {
        (113i32, seq!['(', 'n', ',', 't', '2', 'a', ')'])
    } else if i == 44 {
        (114i32, seq!['(', 'n', ',', 'd', '2', 'a', ')'])
    } else if i == 45 {
        (115i32, seq!['(', 'n', ',', 'p', 'd', ')'])
    } else if i == 46 {
        (116i32, seq!['(', 'n', ',', 'p', 't', ')'])
    } else if i == 47 {
        (117i32, seq!['(', 'n', ',', 'd', 'a', ')'])
    } else if i == 48 {
        (152i32, seq!['(', 'n', ',', '5', 'n', ')'])
    } else if i == 49 {
        (153i32, seq!['(', 'n', ',', '6', 'n', ')'])
    } else if i == 50 {
        (154i32, seq!['(', 'n', ',', '2', 'n', 't', ')'])
    } else if i == 51 {
        (155i32, seq!['(', 'n', ',', 't', 'a', ')'])
    } else if i == 52 {
        (156i32, seq!['(', 'n', ',', '4', 'n', 'p', ')'])
    } else if i == 53 {
        (157i32, seq!['(', 'n', ',', '3', 'n', 'd', ')'])
    } else if i == 54 {
        (158i32, seq!['(', 'n', ',', 'n', 'd', 'a', ')'])
    } else if i == 55 {
        (159i32, seq!['(', 'n', ',', '2', 'n', 'p', 'a', ')'])
    } else if i == 56 {
        (160i32, seq!['(', 'n', ',', '7', 'n', ')'])
    } else if i == 57 {
        (161i32, seq!['(', 'n', ',', '8', 'n', ')'])
    } else if i == 58 {
        (162i32, seq!['(', 'n', ',', '5', 'n', 'p', ')'])
    } else if i == 59 {
        (163i32, seq!['(', 'n', ',', '6', 'n', 'p', ')'])
    } else if i == 60 {
        (164i32, seq!['(', 'n', ',', '7', 'n', 'p', ')'])
    } else if i == 61 {
        (165i32, seq!['(', 'n', ',', '4', 'n', 'a', ')'])
    } else if i == 62 {
        (166i32, seq!['(', 'n', ',', '5', 'n', 'a', ')'])
    } else if i == 63 {
        (167i32, seq!['(', 'n', ',', '6', 'n', 'a', ')'])
    } else if i == 64 {
        (168i32, seq!['(', 'n', ',', '7', 'n', 'a', ')'])
    } else if i == 65 {
        (169i32, seq!['(', 'n', ',', '4', 'n', 'd', ')'])
    } else if i == 66 {
        (170i32, seq!['(', 'n', ',', '5', 'n', 'd', ')'])
    } else if i == 67 {
        (171i32, seq!['(', 'n', ',', '6', 'n', 'd', ')'])
    } else if i == 68 {
        (172i32, seq!['(', 'n', ',', '3', 'n', 't', ')'])
    } else if i == 69 {
        (173i32, seq!['(', 'n', ',', '4', 'n', 't', ')'])
    } else if i == 70 {
        (174i32, seq!['(', 'n', ',', '5', 'n', 't', ')'])
    } else if i == 71 {
        (175i32, seq!['(', 'n', ',', '6', 'n', 't', ')'])
    } else if i == 72 {
        (176i32, seq!['(', 'n', ',', '2', 'n', '3', 'H', 'e', ')'])
    } else if i == 73 {
        (177i32, seq!['(', 'n', ',', '3', 'n', '3', 'H', 'e', ')'])
    } else if i == 74 {
        (178i32, seq!['(', 'n', ',', '4', 'n', '3', 'H', 'e', ')'])
    } else if i == 75 {
        (179i32, seq!['(', 'n', ',', '3', 'n', '2', 'p', ')'])
    } else if i == 76 {
        (180i32, seq!['(', 'n', ',', '3', 'n', '2', 'a', ')'])
    } else if i == 77 {
        (181i32, seq!['(', 'n', ',', '3', 'n', 'p', 'a', ')'])
    } else if i == 78 {
        (182i32, seq!['(', 'n', ',', 'd', 't', ')'])
    } else if i == 79 {
        (183i32, seq!['(', 'n', ',', 'n', 'p', 'd', ')'])
    } else if i == 80 {
        (184i32, seq!['(', 'n', ',', 'n', 'p', 't', ')'])
    } else if i == 81 {
        (185i32, seq!['(', 'n', ',', 'n', 'd', 't', ')'])
    } else if i == 82 {
        (186i32, seq!['(', 'n', ',', 'n', 'p', '3', 'H', 'e', ')'])
    } else if i == 83 {
        (187i32, seq!['(', 'n', ',', 'n', 'd', '3', 'H', 'e', ')'])
    } else if i == 84 {
        (188i32, seq!['(', 'n', ',', 'n', 't', '3', 'H', 'e', ')'])
    } else if i == 85 {
        (189i32, seq!['(', 'n', ',', 'n', 't', 'a', ')'])
    } else if i == 86 {
        (190i32, seq!['(', 'n', ',', '2', 'n', '2', 'p', ')'])
    } else if i == 87 {
        (191i32, seq!['(', 'n', ',', 'p', '3', 'H', 'e', ')'])
    } else if i == 88 {
        (192i32, seq!['(', 'n', ',', 'd', '3', 'H', 'e', ')'])
    } else if i == 89 {
        (193i32, seq!['(', 'n', ',', '3', 'H', 'e', 'a', ')'])
    } else if i == 90 {
        (194i32, seq!['(', 'n', ',', '4', 'n', '2', 'p', ')'])
    } else if i == 91 {
        (195i32, seq!['(', 'n', ',', '4', 'n', '2', 'a', ')'])
    } else if i == 92 {
        (196i32, seq!['(', 'n', ',', '4', 'n', 'p', 'a', ')'])
    } else if i == 93 {
        (197i32, seq!['(', 'n', ',', '3', 'p', ')'])
    } else if i == 94 {
        (198i32, seq!['(', 'n', ',', 'n', '3', 'p', ')'])
    } else if i == 95 {
        (199i32, seq!['(', 'n', ',', '3', 'n', '2', 'p', 'a', ')'])
    } else if i == 96 {
        (200i32, seq!['(', 'n', ',', '5', 'n', '2', 'p', ')'])
    } else if i == 97 {
        (203i32, seq!['(', 'n', ',', 'X', 'p', ')'])
    } else if i == 98 {
        (204i32, seq!['(', 'n', ',', 'X', 'd', ')'])
    } else if i == 99 {
        (205i32, seq!['(', 'n', ',', 'X', 't', ')'])
    } else if i == 100 {
        (206i32, seq!['(', 'n', ',', 'X', '3', 'H', 'e', ')'])
    } else if i == 101 {
        (207i32, seq!['(', 'n', ',', 'X', 'a', ')'])
    } else if i == 102 {
        (301i32, seq!['h', 'e', 'a', 't', 'i', 'n', 'g'])
    } else if i == 103 {
        (444i32, seq!['d', 'a', 'm', 'a', 'g', 'e', '-', 'e', 'n', 'e', 'r', 'g', 'y'])
    } else if i == 104 {
        (649i32, seq!['(', 'n', ',', 'p', 'c', ')'])
    } else if i == 105 {
        (699i32, seq!['(', 'n', ',', 'd', 'c', ')'])
    } else if i == 106 {
        (749i32, seq!['(', 'n', ',', 't', 'c', ')'])
    } else if i == 107 {
        (799i32, seq!['(', 'n', ',', '3', 'H', 'e', 'c', ')'])
    } else if i == 108 {
        (849i32, seq!['(', 'n', ',', 'a', 'c', ')'])
    } else if i == 109 {
        (891i32, seq!['(', 'n', ',', '2', 'n', 'c', ')'])
    } else if i == 110 {
        (901i32, seq!['h', 'e', 'a', 't', 'i', 'n', 'g', '-', 'l', 'o', 'c', 'a', 'l'])
    } else {
        (0i32, Seq::empty())
    }
}

/// `i` where `s` is the name of the `i`-th entry of the table of names, and
/// `-1` otherwise.
pub open spec fn base_leaf(s: Seq<char>, i: int) -> int {
    if s == base_entry(i).1 {
        i
    } else {
        -1
    }
}

/// The entry of the table of names that a name can only be, by its length
/// and a few of its characters, if it is that entry's name; `-1` otherwise.
pub open spec fn base_index(s: Seq<char>) -> int {
    if s.len() == 5 {
        if s[3] == 'f' {
            base_leaf(s, 9)
        } else if s[3] == 'p' {
            base_leaf(s, 34)
        } else if s[3] == 'd' {
            base_leaf(s, 35)
        } else if s[3] == 't' {
            base_leaf(s, 36)
        } else {
            base_leaf(s, 38)
        }
    } else if s.len() == 6 {
        if s[3] == '2' {
            if s[4] == 'n' {
                base_leaf(s, 6)
            } else if s[4] == 'a' {
                base_leaf(s, 39)
            } else {
                base_leaf(s, 41)
            }
        } else if s[3] == '3' {
            if s[4] == 'n' {
                base_leaf(s, 7)
            } else if s[4] == 'a' {
                base_leaf(s, 40)
            } else {
                base_leaf(s, 93)
            }
        } else if s[3] == 'n' {
            if s[4] == 'f' {
                base_leaf(s, 10)
            } else if s[4] == 'a' {
                base_leaf(s, 12)
            } else if s[4] == 'p' {
                base_leaf(s, 17)
            } else if s[4] == 'd' {
                base_leaf(s, 20)
            } else if s[4] == 't' {
                base_leaf(s, 21)
            } else {
                base_leaf(s, 31)
            }
        } else if s[3] == '4' {
            base_leaf(s, 25)
        } else if s[3] == 'p' {
            if s[4] == 'a' {
                base_leaf(s, 42)
            } else if s[4] == 'd' {
                base_leaf(s, 45)
            } else if s[4] == 't' {
                base_leaf(s, 46)
            } else {
                base_leaf(s, 104)
            }
        } else if s[3] == 'd' {
            if s[4] == 'a' {
                base_leaf(s, 47)
            } else if s[4] == 't' {
                base_leaf(s, 78)
            } else {
                base_leaf(s, 105)
            }
        } else if s[3] == '5' {
            base_leaf(s, 48)
        } else if s[3] == '6' {
            base_leaf(s, 49)
        } else if s[3] == 't' {
            if s[4] == 'a' {
                base_leaf(s, 51)
            } else {
                base_leaf(s, 106)
            }
        } else if s[3] == '7' {
            base_leaf(s, 56)
        } else if s[3] == '8' {
            base_leaf(s, 57)
        } else if s[3] == 'X' {
            if s[4] == 'p' {
                base_leaf(s, 97)
            } else if s[4] == 'd' {
                base_leaf(s, 98)
            } else if s[4] == 't' {
                base_leaf(s, 99)
            } else {
                base_leaf(s, 101)
            }
        } else {
            base_leaf(s, 108)
        }
    } else if s.len() == 7 {
        if s[3] == '2' {
            if s[5] == 'd' {
                base_leaf(s, 5)
            } else if s[5] == 'f' {
                base_leaf(s, 11)
            } else if s[5] == 'a' {
                base_leaf(s, 14)
            } else if s[5] == 'p' {
                base_leaf(s, 27)
            } else if s[5] == 't' {
                base_leaf(s, 50)
            } else {
                base_leaf(s, 109)
            }
        } else if s[3] == 'n' {
            if s[4] == '3' {
                if s[5] == 'a' {
                    base_leaf(s, 13)
                } else {
                    base_leaf(s, 94)
                }
            } else if s[4] == '2' {
                if s[5] == 'a' {
                    base_leaf(s, 18)
                } else {
                    base_leaf(s, 29)
                }
            } else if s[4] == 'p' {
                if s[5] == 'a' {
                    base_leaf(s, 30)
                } else if s[5] == 'd' {
                    base_leaf(s, 79)
                } else {
                    base_leaf(s, 80)
                }
            } else if s[4] == 'd' {
                if s[5] == 'a' {
                    base_leaf(s, 54)
                } else {
                    base_leaf(s, 81)
                }
            } else {
                base_leaf(s, 85)
            }
        } else if s[3] == '3' {
            if s[5] == 'a' {
                base_leaf(s, 15)
            } else if s[5] == 'f' {
                base_leaf(s, 26)
            } else if s[5] == 'p' {
                base_leaf(s, 28)
            } else if s[5] == 'e' {
                base_leaf(s, 37)
            } else if s[5] == 'd' {
                base_leaf(s, 53)
            } else {
                base_leaf(s, 68)
            }
        } else if s[3] == 't' {
            if s[0] == '(' {
                base_leaf(s, 43)
            } else {
                base_leaf(s, 102)
            }
        } else if s[3] == 'd' {
            base_leaf(s, 44)
        } else if s[3] == '4' {
            if s[5] == 'p' {
                base_leaf(s, 52)
            } else if s[5] == 'a' {
                base_leaf(s, 61)
            } else if s[5] == 'd' {
                base_leaf(s, 65)
            } else {
                base_leaf(s, 69)
            }
        } else if s[3] == '5' {
            if s[5] == 'p' {
                base_leaf(s, 58)
            } else if s[5] == 'a' {
                base_leaf(s, 62)
            } else if s[5] == 'd' {
                base_leaf(s, 66)
            } else {
                base_leaf(s, 70)
            }
        } else if s[3] == '6' {
            if s[5] == 'p' {
                base_leaf(s, 59)
            } else if s[5] == 'a' {
                base_leaf(s, 63)
            } else if s[5] == 'd' {
                base_leaf(s, 67)
            } else {
                base_leaf(s, 71)
            }
        } else {
            if s[5] == 'p' {
                base_leaf(s, 60)
            } else {
                base_leaf(s, 64)
            }
        }
    } else if s.len() == 8 {
        if s[3] == 'm' {
            base_leaf(s, 4)
        } else if s[3] == '2' {
            if s[5] == '2' {
                if s[6] == 'a' {
                    base_leaf(s, 19)
                } else {
                    base_leaf(s, 86)
                }
            } else {
                base_leaf(s, 55)
            }
        } else if s[3] == 'n' {
            if s[4] == '3' {
                base_leaf(s, 22)
            } else if s[4] == 'd' {
                base_leaf(s, 23)
            } else {
                base_leaf(s, 24)
            }
        } else if s[3] == '3' {
            if s[5] == '2' {
                if s[6] == 'p' {
                    base_leaf(s, 75)
                } else {
                    base_leaf(s, 76)
                }
            } else if s[5] == 'p' {
                base_leaf(s, 77)
            } else {
                if s[6] == 'a' {
                    base_leaf(s, 89)
                } else {
                    base_leaf(s, 107)
                }
            }
        } else if s[3] == 'p' {
            base_leaf(s, 87)
        } else if s[3] == 'd' {
            base_leaf(s, 88)
        } else if s[3] == '4' {
            if s[5] == '2' {
                if s[6] == 'p' {
                    base_leaf(s, 90)
                } else {
                    base_leaf(s, 91)
                }
            } else {
                base_leaf(s, 92)
            }
        } else if s[3] == '5' {
            base_leaf(s, 96)
        } else {
            base_leaf(s, 100)
        }
    } else if s.len() == 9 {
        if s[3] == 't' {
            base_leaf(s, 0)
        } else if s[3] == 'l' {
            base_leaf(s, 3)
        } else if s[3] == 'g' {
            base_leaf(s, 33)
        } else if s[3] == '2' {
            base_leaf(s, 72)
        } else if s[3] == '3' {
            if s[5] == '3' {
                base_leaf(s, 73)
            } else {
                base_leaf(s, 95)
            }
        } else if s[3] == '4' {
            base_leaf(s, 74)
        } else {
            if s[4] == 'p' {
                base_leaf(s, 82)
            } else if s[4] == 'd' {
                base_leaf(s, 83)
            } else {
                base_leaf(s, 84)
            }
        }
    } else if s.len() == 11 {
        if s[3] == 'e' {
            base_leaf(s, 1)
        } else {
            base_leaf(s, 8)
        }
    } else if s.len() == 13 {
        if s[0] == '(' {
            base_leaf(s, 32)
        } else if s[0] == 'd' {
            base_leaf(s, 103)
        } else {
            base_leaf(s, 110)
        }
    } else if s.len() == 14 {
        if s[3] == 'n' {
            base_leaf(s, 2)
        } else {
            base_leaf(s, 16)
        }
    } else {
        -1
    }
}

/// The `i`-th entry of the table of names is found by [`base_index`], and
/// its name does not end in a digit and `)`, as a level reaction's does.
proof fn lemma_base_index(i: int)
    requires
        0 <= i < 111,
    ensures
        base_index(base_entry(i).1) == i,
        base_entry(i).1.len() >= 2,
        !is_digit(base_entry(i).1[base_entry(i).1.len() - 2]),
{
}

/// [`base_entry`], computed.
fn base_entry_exec(i: usize) -> (r: (i32, Vec<char>))
    requires
        i < 111,
    ensures
        r.0 == base_entry(i as int).0,
        r.1@ == base_entry(i as int).1,
{
    match i {
        0 => (1, vec!['(', 'n', ',', 't', 'o', 't', 'a', 'l', ')']),
        1 => (2, vec!['(', 'n', ',', 'e', 'l', 'a', 's', 't', 'i', 'c', ')']),
        2 => (3, vec!['(', 'n', ',', 'n', 'o', 'n', 'e', 'l', 'a', 's', 't', 'i', 'c', ')']),
        3 => (4, vec!['(', 'n', ',', 'l', 'e', 'v', 'e', 'l', ')']),
        4 => (5, vec!['(', 'n', ',', 'm', 'i', 's', 'c', ')']),
        5 => (11, vec!['(', 'n', ',', '2', 'n', 'd', ')']),
        6 => (16, vec!['(', 'n', ',', '2', 'n', ')']),
        7 => (17, vec!['(', 'n', ',', '3', 'n', ')']),
        8 => (18, vec!['(', 'n', ',', 'f', 'i', 's', 's', 'i', 'o', 'n', ')']),
        9 => (19, vec!['(', 'n', ',', 'f', ')']),
        10 => (20, vec!['(', 'n', ',', 'n', 'f', ')']),
        11 => (21, vec!['(', 'n', ',', '2', 'n', 'f', ')']),
        12 => (22, vec!['(', 'n', ',', 'n', 'a', ')']),
        13 => (23, vec!['(', 'n', ',', 'n', '3', 'a', ')']),
        14 => (24, vec!['(', 'n', ',', '2', 'n', 'a', ')']),
        15 => (25, vec!['(', 'n', ',', '3', 'n', 'a', ')']),
        16 => (27, vec!['(', 'n', ',', 'a', 'b', 's', 'o', 'r', 'p', 't', 'i', 'o', 'n', ')']),
        17 => (28, vec!['(', 'n', ',', 'n', 'p', ')']),
        18 => (29, vec!['(', 'n', ',', 'n', '2', 'a', ')']),
        19 => (30, vec!['(', 'n', ',', '2', 'n', '2', 'a', ')']),
        20 => (32, vec!['(', 'n', ',', 'n', 'd', ')']),
        21 => (33, vec!['(', 'n', ',', 'n', 't', ')']),
        22 => (34, vec!['(', 'n', ',', 'n', '3', 'H', 'e', ')']),
        23 => (35, vec!['(', 'n', ',', 'n', 'd', '2', 'a', ')']),
        24 => (36, vec!['(', 'n', ',', 'n', 't', '2', 'a', ')']),
        25 => (37, vec!['(', 'n', ',', '4', 'n', ')']),
        26 => (38, vec!['(', 'n', ',', '3', 'n', 'f', ')']),
        27 => (41, vec!['(', 'n', ',', '2', 'n', 'p', ')']),
        28 => (42, vec!['(', 'n', ',', '3', 'n', 'p', ')']),
        29 => (44, vec!['(', 'n', ',', 'n', '2', 'p', ')']),
        30 => (45, vec!['(', 'n', ',', 'n', 'p', 'a', ')']),
        31 => (91, vec!['(', 'n', ',', 'n', 'c', ')']),
        32 => (101, vec!['(', 'n', ',', 'd', 'i', 's', 'a', 'p', 'p', 'e', 'a', 'r', ')']),
        33 => (102, vec!['(', 'n', ',', 'g', 'a', 'm', 'm', 'a', ')']),
        34 => (103, vec!['(', 'n', ',', 'p', ')']),
        35 => (104, vec!['(', 'n', ',', 'd', ')']),
        36 => (105, vec!['(', 'n', ',', 't', ')']),
        37 => (106, vec!['(', 'n', ',', '3', 'H', 'e', ')']),
        38 => (107, vec!['(', 'n', ',', 'a', ')']),
        39 => (108, vec!['(', 'n', ',', '2', 'a', ')']),
        40 => (109, vec!['(', 'n', ',', '3', 'a', ')']),
        41 => (111, vec!['(', 'n', ',', '2', 'p', ')']),
        42 => (112, vec!['(', 'n', ',', 'p', 'a', ')']),
        43 => (113, vec!['(', 'n', ',', 't', '2', 'a', ')']),
        44 => (114, vec!['(', 'n', ',', 'd', '2', 'a', ')']),
        45 => (115, vec!['(', 'n', ',', 'p', 'd', ')']),
        46 => (116, vec!['(', 'n', ',', 'p', 't', ')']),
        47 => (117, vec!['(', 'n', ',', 'd', 'a', ')']),
        48 => (152, vec!['(', 'n', ',', '5', 'n', ')']),
        49 => (153, vec!['(', 'n', ',', '6', 'n', ')']),
        50 => (154, vec!['(', 'n', ',', '2', 'n', 't', ')']),
        51 => (155, vec!['(', 'n', ',', 't', 'a', ')']),
        52 => (156, vec!['(', 'n', ',', '4', 'n', 'p', ')']),
        53 => (157, vec!['(', 'n', ',', '3', 'n', 'd', ')']),
        54 => (158, vec!['(', 'n', ',', 'n', 'd', 'a', ')']),
        55 => (159, vec!['(', 'n', ',', '2', 'n', 'p', 'a', ')']),
        56 => (160, vec!['(', 'n', ',', '7', 'n', ')']),
        57 => (161, vec!['(', 'n', ',', '8', 'n', ')']),
        58 => (162, vec!['(', 'n', ',', '5', 'n', 'p', ')']),
        59 => (163, vec!['(', 'n', ',', '6', 'n', 'p', ')']),
        60 => (164, vec!['(', 'n', ',', '7', 'n', 'p', ')']),
        61 => (165, vec!['(', 'n', ',', '4', 'n', 'a', ')']),
        62 => (166, vec!['(', 'n', ',', '5', 'n', 'a', ')']),
        63 => (167, vec!['(', 'n', ',', '6', 'n', 'a', ')']),
        64 => (168, vec!['(', 'n', ',', '7', 'n', 'a', ')']),
        65 => (169, vec!['(', 'n', ',', '4', 'n', 'd', ')']),
        66 => (170, vec!['(', 'n', ',', '5', 'n', 'd', ')']),
        67 => (171, vec!['(', 'n', ',', '6', 'n', 'd', ')']),
        68 => (172, vec!['(', 'n', ',', '3', 'n', 't', ')']),
        69 => (173, vec!['(', 'n', ',', '4', 'n', 't', ')']),
        70 => (174, vec!['(', 'n', ',', '5', 'n', 't', ')']),
        71 => (175, vec!['(', 'n', ',', '6', 'n', 't', ')']),
        72 => (176, vec!['(', 'n', ',', '2', 'n', '3', 'H', 'e', ')']),
        73 => (177, vec!['(', 'n', ',', '3', 'n', '3', 'H', 'e', ')']),
        74 => (178, vec!['(', 'n', ',', '4', 'n', '3', 'H', 'e', ')']),
        75 => (179, vec!['(', 'n', ',', '3', 'n', '2', 'p', ')']),
        76 => (180, vec!['(', 'n', ',', '3', 'n', '2', 'a', ')']),
        77 => (181, vec!['(', 'n', ',', '3', 'n', 'p', 'a', ')']),
        78 => (182, vec!['(', 'n', ',', 'd', 't', ')']),
        79 => (183, vec!['(', 'n', ',', 'n', 'p', 'd', ')']),
        80 => (184, vec!['(', 'n', ',', 'n', 'p', 't', ')']),
        81 => (185, vec!['(', 'n', ',', 'n', 'd', 't', ')']),
        82 => (186, vec!['(', 'n', ',', 'n', 'p', '3', 'H', 'e', ')']),
        83 => (187, vec!['(', 'n', ',', 'n', 'd', '3', 'H', 'e', ')']),
        84 => (188, vec!['(', 'n', ',', 'n', 't', '3', 'H', 'e', ')']),
        85 => (189, vec!['(', 'n', ',', 'n', 't', 'a', ')']),
        86 => (190, vec!['(', 'n', ',', '2', 'n', '2', 'p', ')']),
        87 => (191, vec!['(', 'n', ',', 'p', '3', 'H', 'e', ')']),
        88 => (192, vec!['(', 'n', ',', 'd', '3', 'H', 'e', ')']),
        89 => (193, vec!['(', 'n', ',', '3', 'H', 'e', 'a', ')']),
        90 => (194, vec!['(', 'n', ',', '4', 'n', '2', 'p', ')']),
        91 => (195, vec!['(', 'n', ',', '4', 'n', '2', 'a', ')']),
        92 => (196, vec!['(', 'n', ',', '4', 'n', 'p', 'a', ')']),
        93 => (197, vec!['(', 'n', ',', '3', 'p', ')']),
        94 => (198, vec!['(', 'n', ',', 'n', '3', 'p', ')']),
        95 => (199, vec!['(', 'n', ',', '3', 'n', '2', 'p', 'a', ')']),
        96 => (200, vec!['(', 'n', ',', '5', 'n', '2', 'p', ')']),
        97 => (203, vec!['(', 'n', ',', 'X', 'p', ')']),
        98 => (204, vec!['(', 'n', ',', 'X', 'd', ')']),
        99 => (205, vec!['(', 'n', ',', 'X', 't', ')']),
        100 => (206, vec!['(', 'n', ',', 'X', '3', 'H', 'e', ')']),
        101 => (207, vec!['(', 'n', ',', 'X', 'a', ')']),
        102 => (301, vec!['h', 'e', 'a', 't', 'i', 'n', 'g']),
        103 => (444, vec!['d', 'a', 'm', 'a', 'g', 'e', '-', 'e', 'n', 'e', 'r', 'g', 'y']),
        104 => (649, vec!['(', 'n', ',', 'p', 'c', ')']),
        105 => (699, vec!['(', 'n', ',', 'd', 'c', ')']),
        106 => (749, vec!['(', 'n', ',', 't', 'c', ')']),
        107 => (799, vec!['(', 'n', ',', '3', 'H', 'e', 'c', ')']),
        108 => (849, vec!['(', 'n', ',', 'a', 'c', ')']),
        109 => (891, vec!['(', 'n', ',', '2', 'n', 'c', ')']),
        110 => (901, vec!['h', 'e', 'a', 't', 'i', 'n', 'g', '-', 'l', 'o', 'c', 'a', 'l']),
        _ => (0, Vec::new()),
    }
}

/// The `f`-th run of MT numbers that count the excited level of the
/// residual: its first MT, the MT after its last, the emitted particle, and
/// the offset that takes an MT to its level.
///
/// MT=51 is the first inelastic level and is named `(n,n1)`, so the name is
/// the particle followed by `MT - offset`.
pub open spec fn family(f: int) -> (int, int, Seq<char>, int) {
    if f == 0 {
        (51, 91, seq!['n'], 50)
    } else if f == 1 {
        (600, 649, seq!['p'], 600)
    } else if f == 2 {
        (650, 699, seq!['d'], 650)
    } else if f == 3 {
        (700, 749, seq!['t'], 700)
    } else if f == 4 {
        (750, 799, seq!['3', 'H', 'e'], 750)
    } else if f == 5 {
        (800, 849, seq!['a'], 800)
    } else {
        (875, 891, seq!['2', 'n'], 875)
    }
}

/// [`family`], computed.
fn family_exec(f: usize) -> (r: (i32, i32, Vec<char>, i32))
    requires
        f < 7,
    ensures
        r.0 == family(f as int).0,
        r.1 == family(f as int).1,
        r.2@ == family(f as int).2,
        r.3 == family(f as int).3,
{
    match f {
        0 => (51, 91, vec!['n'], 50),
        1 => (600, 649, vec!['p'], 600),
        2 => (650, 699, vec!['d'], 650),
        3 => (700, 749, vec!['t'], 700),
        4 => (750, 799, vec!['3', 'H', 'e'], 750),
        5 => (800, 849, vec!['a'], 800),
        _ => (875, 891, vec!['2', 'n'], 875),
    }
}

/// The name of a level reaction: `(n,` then the particle, the level and `)`.
pub open spec fn level_name(particle: Seq<char>, level: int) -> Seq<char> {
    seq!['(', 'n', ','] + particle + decimal(level as nat) + seq![')']
}

/// The first family from `f` on whose run holds `mt`.
pub open spec fn family_of(mt: int, f: int) -> Option<int>
    decreases 7 - f,
{
    if f < 0 || f >= 7 {
        None
    } else if family(f).0 <= mt < family(f).1 {
        Some(f)
    } else {
        family_of(mt, f + 1)
    }
}

/// The name of the first reaction from the `i`-th on that the format names
/// outright with MT `mt`.
pub open spec fn base_name_from(mt: i32, i: int) -> Option<Seq<char>>
    decreases 111 - i,
{
    if i < 0 || i >= 111 {
        None
    } else if base_entry(i).0 == mt {
        Some(base_entry(i).1)
    } else {
        base_name_from(mt, i + 1)
    }
}

/// The name of a reaction: a level reaction is named for its level, the
/// others by the format's table.
pub open spec fn reaction_name_spec(mt: i32) -> Option<Seq<char>> {
    match family_of(mt as int, 0) {
        Some(f) => Some(level_name(family(f).2, mt - family(f).3)),
        None => base_name_from(mt, 0),
    }
}

/// The name of a reaction, e.g. `"(n,2n)"` for MT=16 or `"(n,n3)"` for MT=53.
///
/// `None` for an MT the format does not name, which includes every MT a
/// particular evaluation may have invented.
pub fn reaction_name(mt: i32) -> (r: Option<String>)
    ensures
        r matches Some(s) ==> reaction_name_spec(mt) == Some(s@),
        r is None ==> reaction_name_spec(mt) is None,
{
    let mut f: usize = 0;
    while f < 7
        invariant
            f <= 7,
            family_of(mt as int, 0) == family_of(mt as int, f as int),
        decreases 7 - f,
    {
        let (first, end, particle, offset) = family_exec(f);
        if first <= mt && mt < end {
            let v = level_name_chars(&particle, (mt - offset) as u64);
            return Some(string_from_chars(&v));
        }
        f = f + 1;
    }
    let mut i: usize = 0;
    while i < 111
        invariant
            i <= 111,
            family_of(mt as int, 0) is None,
            base_name_from(mt, 0) == base_name_from(mt, i as int),
        decreases 111 - i,
    {
        let (m, name) = base_entry_exec(i);
        if m == mt {
            return Some(string_from_chars(&name));
        }
        i = i + 1;
    }
    None
}

/// The characters of a level reaction's name.
fn level_name_chars(particle: &Vec<char>, level: u64) -> (r: Vec<char>)
    ensures
        r@ == level_name(particle@, level as int),
{
    let mut v: Vec<char> = vec!['(', 'n', ','];
    let mut i: usize = 0;
    while i < particle.len()
        invariant
            i <= particle.len(),
            v@ == seq!['(', 'n', ','] + particle@.take(i as int),
        decreases particle.len() - i,
    {
        v.push(particle[i]);
        assert(particle@.take(i + 1) == particle@.take(i as int).push(particle@[i as int]));
        i = i + 1;
    }
    assert(particle@.take(particle.len() as int) == particle@);
    push_decimal_chars(&mut v, level);
    v.push(')');
    assert(v@ =~= level_name(particle@, level as int));
    v
}

/// The `i`-th of the names by which a reaction may be asked for besides its
/// own, and the reaction's MT.
pub open spec fn alias_entry(i: int) -> (Seq<char>, i32) {
    if i == 0 {
        (seq!['t', 'o', 't', 'a', 'l'], 1i32)
    } else if i == 1 {
        (seq!['e', 'l', 'a', 's', 't', 'i', 'c'], 2i32)
    } else if i == 2 {
        (seq!['f', 'i', 's', 's', 'i', 'o', 'n'], 18i32)
    } else if i == 3 {
        (seq!['a', 'b', 's', 'o', 'r', 'p', 't', 'i', 'o', 'n'], 27i32)
    } else {
        (seq!['c', 'a', 'p', 't', 'u', 'r', 'e'], 102i32)
    }
}

/// [`alias_entry`], computed.
fn alias_entry_exec(i: usize) -> (r: (Vec<char>, i32))
    requires
        i < 5,
    ensures
        r.0@ == alias_entry(i as int).0,
        r.1 == alias_entry(i as int).1,
{
    match i {
        0 => (vec!['t', 'o', 't', 'a', 'l'], 1),
        1 => (vec!['e', 'l', 'a', 's', 't', 'i', 'c'], 2),
        2 => (vec!['f', 'i', 's', 's', 'i', 'o', 'n'], 18),
        3 => (vec!['a', 'b', 's', 'o', 'r', 'p', 't', 'i', 'o', 'n'], 27),
        _ => (vec!['c', 'a', 'p', 't', 'u', 'r', 'e'], 102),
    }
}

/// The MT of the last alias up to the `i`-th that is `s`.
pub open spec fn last_alias(s: Seq<char>, i: int) -> Option<i32>
    decreases i + 1,
{
    if i < 0 || i >= 5 {
        None
    } else if alias_entry(i).0 == s {
        Some(alias_entry(i).1)
    } else {
        last_alias(s, i - 1)
    }
}

/// The last MT of family `f`, up to `mt`, whose level name is `s`.
pub open spec fn last_in_family(s: Seq<char>, f: int, mt: int) -> Option<i32>
    decreases mt - family(f).0 + 1,
{
    if mt < family(f).0 {
        None
    } else if level_name(family(f).2, mt - family(f).3) == s {
        Some(mt as i32)
    } else {
        last_in_family(s, f, mt - 1)
    }
}

/// The MT of the level reaction named `s`, looking through the families
/// from the `f`-th back to the first, the last in the table winning.
pub open spec fn last_level(s: Seq<char>, f: int) -> Option<i32>
    decreases f + 1,
{
    if f < 0 || f >= 7 {
        None
    } else {
        match last_in_family(s, f, family(f).1 - 1) {
            Some(mt) => Some(mt),
            None => last_level(s, f - 1),
        }
    }
}

/// The MT of the last of the reactions named outright, up to the `i`-th,
/// whose name is `s`.
pub open spec fn last_base(s: Seq<char>, i: int) -> Option<i32>
    decreases i + 1,
{
    if i < 0 || i >= 111 {
        None
    } else if base_entry(i).1 == s {
        Some(base_entry(i).0)
    } else {
        last_base(s, i - 1)
    }
}

/// The MT a name stands for. The table of names is built from the format's
/// names, then the level names, then the aliases, each later entry
/// replacing an earlier one of the same name.
pub open spec fn reaction_mt_spec(s: Seq<char>) -> Option<i32> {
    match last_alias(s, 4) {
        Some(mt) => Some(mt),
        None => match last_level(s, 6) {
            Some(mt) => Some(mt),
            None => last_base(s, 110),
        },
    }
}

/// The MT of a named reaction, by its own name or by an alias.
pub fn reaction_mt(name: &str) -> (r: Option<i32>)
    ensures
        r == reaction_mt_spec(name@),
{
    let v = chars_of(name);
    let ghost s = v@;
    let mut i: usize = 5;
    while i > 0
        invariant
            i <= 5,
            s == v@,
            s == name@,
            last_alias(s, 4) == last_alias(s, i - 1),
        decreases i,
    {
        let (alias, mt) = alias_entry_exec(i - 1);
        if chars_eq(&alias, &v) {
            return Some(mt);
        }
        i = i - 1;
    }
    let mut f: usize = 7;
    while f > 0
        invariant
            f <= 7,
            s == v@,
            s == name@,
            last_alias(s, 4) is None,
            last_level(s, 6) == last_level(s, f - 1),
        decreases f,
    {
        let (first, end, particle, offset) = family_exec(f - 1);
        let mut mt: i32 = end;
        while mt > first
            invariant
                first <= mt <= end,
                first == family(f - 1).0,
                end == family(f - 1).1,
                offset == family(f - 1).3,
                particle@ == family(f - 1).2,
                s == v@,
                s == name@,
            s == name@,
                last_in_family(s, f - 1, end - 1) == last_in_family(s, f - 1, mt - 1),
                1 <= f <= 7,
                last_alias(s, 4) is None,
                last_level(s, 6) == last_level(s, f - 1),
            decreases mt - first,
        {
            let name = level_name_chars(&particle, (mt - 1 - offset) as u64);
            if chars_eq(&name, &v) {
                return Some(mt - 1);
            }
            mt = mt - 1;
        }
        f = f - 1;
    }
    let mut i: usize = 111;
    while i > 0
        invariant
            i <= 111,
            s == v@,
            s == name@,
            last_alias(s, 4) is None,
            last_level(s, 6) is None,
            last_base(s, 110) == last_base(s, i - 1),
        decreases i,
    {
        let (mt, base) = base_entry_exec(i - 1);
        if chars_eq(&base, &v) {
            return Some(mt);
        }
        i = i - 1;
    }
    None
}

/// The first family from `f` on that holds `mt` does hold it.
proof fn lemma_family_of(mt: int, f: int)
    requires
        0 <= f,
    ensures
        family_of(mt, f) matches Some(g) ==> f <= g < 7 && family(g).0 <= mt < family(g).1,
    decreases 7 - f,
{
    if f < 7 && !(family(f).0 <= mt < family(f).1) {
        lemma_family_of(mt, f + 1);
    }
}

/// The name [`base_name_from`] gives is that of an entry with MT `mt`.
proof fn lemma_base_name_from(mt: i32, i: int) -> (j: int)
    requires
        0 <= i,
        base_name_from(mt, i) is Some,
    ensures
        i <= j < 111,
        base_entry(j).0 == mt,
        base_name_from(mt, i) == Some(base_entry(j).1),
    decreases 111 - i,
{
    if base_entry(i).0 == mt {
        i
    } else {
        lemma_base_name_from(mt, i + 1)
    }
}

/// Looking back from the `j`-th entry, the last name that is the `i`-th
/// entry's is the `i`-th entry's own: the names of the table are distinct.
proof fn lemma_last_base(i: int, j: int)
    requires
        0 <= i <= j < 111,
    ensures
        last_base(base_entry(i).1, j) == Some(base_entry(i).0),
    decreases j,
{
    if j > i {
        lemma_base_index(i);
        lemma_base_index(j);
        lemma_last_base(i, j - 1);
    }
}

/// No alias is a name of the table: [`base_index`] finds none of them.
proof fn lemma_aliases_not_in_table(k: int)
    requires
        0 <= k < 5,
    ensures
        base_index(alias_entry(k).0) == -1,
        alias_entry(k).0.len() > 0,
        alias_entry(k).0[0] != '(',
{
}

/// A name that no alias up to the `k`-th is has no alias MT.
proof fn lemma_no_alias(s: Seq<char>, k: int)
    requires
        k < 5,
        forall|j: int| 0 <= j <= k ==> alias_entry(j).0 != s,
    ensures
        last_alias(s, k) is None,
    decreases k + 1,
{
    if k >= 0 {
        lemma_no_alias(s, k - 1);
    }
}

/// A level name ends in the digits of its level and `)`.
proof fn lemma_level_name_shape(particle: Seq<char>, level: int)
    requires
        particle.len() > 0,
        level >= 0,
    ensures
        level_name(particle, level).len() >= 6,
        level_name(particle, level)[0] == '(',
        level_name(particle, level)[3] == particle[0],
        is_digit(level_name(particle, level)[level_name(particle, level).len() - 2]),
        level_name(particle, level).subrange(
            3 + particle.len() as int,
            level_name(particle, level).len() - 1,
        ) == decimal(level as nat),
{
    let d = decimal(level as nat);
    lemma_decimal_digits(level as nat);
    let n = level_name(particle, level);
    assert(n == seq!['(', 'n', ','] + particle + d + seq![')']);
    assert(n[n.len() - 2] == d[d.len() - 1]);
    assert(is_digit(d[d.len() - 1]));
    assert(n.subrange(3 + particle.len() as int, n.len() - 1) =~= d);
}

/// Two levels of one family have the same name only if they are the same
/// level.
proof fn lemma_level_name_injective(particle: Seq<char>, l1: int, l2: int)
    requires
        particle.len() > 0,
        l1 >= 0,
        l2 >= 0,
        level_name(particle, l1) == level_name(particle, l2),
    ensures
        l1 == l2,
{
    lemma_level_name_shape(particle, l1);
    lemma_level_name_shape(particle, l2);
    lemma_decimal_digits(l1 as nat);
    lemma_decimal_digits(l2 as nat);
}

/// What every family holds: a particle, and levels that are not negative.
proof fn lemma_family_shape(f: int)
    requires
        0 <= f < 7,
    ensures
        family(f).2.len() > 0,
        family(f).3 <= family(f).0 <= family(f).1,
        family(f).1 <= 891,
        forall|g: int| 0 <= g < 7 && g != f ==> family(g).2[0] != family(f).2[0],
{
}

/// A name without a digit before its last character is no level name.
proof fn lemma_no_level_in_family(s: Seq<char>, f: int, mt: int)
    requires
        0 <= f < 7,
        s.len() >= 2,
        !is_digit(s[s.len() - 2]),
    ensures
        last_in_family(s, f, mt) is None,
    decreases mt - family(f).0 + 1,
{
    if mt >= family(f).0 {
        lemma_family_shape(f);
        lemma_level_name_shape(family(f).2, mt - family(f).3);
        lemma_no_level_in_family(s, f, mt - 1);
    }
}

/// A name without a digit before its last character is no level name of
/// any family.
proof fn lemma_no_level(s: Seq<char>, f: int)
    requires
        f < 7,
        s.len() >= 2,
        !is_digit(s[s.len() - 2]),
    ensures
        last_level(s, f) is None,
    decreases f + 1,
{
    if f >= 0 {
        lemma_no_level_in_family(s, f, family(f).1 - 1);
        lemma_no_level(s, f - 1);
    }
}

/// A name whose fourth character is not that of family `g`'s particle is
/// none of that family's level names.
proof fn lemma_other_family(s: Seq<char>, g: int, mt: int)
    requires
        0 <= g < 7,
        s.len() > 3,
        s[3] != family(g).2[0],
    ensures
        last_in_family(s, g, mt) is None,
    decreases mt - family(g).0 + 1,
{
    if mt >= family(g).0 {
        lemma_family_shape(g);
        lemma_level_name_shape(family(g).2, mt - family(g).3);
        lemma_other_family(s, g, mt - 1);
    }
}

/// Looking back from `top` in family `f`, the last MT named as `mt` is
/// `mt`.
proof fn lemma_own_level(f: int, mt: int, top: int)
    requires
        0 <= f < 7,
        family(f).0 <= mt <= top,
    ensures
        last_in_family(level_name(family(f).2, mt - family(f).3), f, top) == Some(mt as i32),
    decreases top - mt,
{
    lemma_family_shape(f);
    if top > mt {
        if level_name(family(f).2, top - family(f).3) == level_name(family(f).2, mt - family(f).3) {
            lemma_level_name_injective(family(f).2, top - family(f).3, mt - family(f).3);
        }
        lemma_own_level(f, mt, top - 1);
    }
}

/// Looking back from family `g`, the level reaction `mt` of family `f` is
/// found as itself.
proof fn lemma_own_family(f: int, mt: int, g: int)
    requires
        0 <= f <= g < 7,
        family(f).0 <= mt < family(f).1,
    ensures
        last_level(level_name(family(f).2, mt - family(f).3), g) == Some(mt as i32),
    decreases g,
{
    let s = level_name(family(f).2, mt - family(f).3);
    lemma_family_shape(f);
    lemma_level_name_shape(family(f).2, mt - family(f).3);
    if g > f {
        lemma_family_shape(g);
        lemma_other_family(s, g, family(g).1 - 1);
        lemma_own_family(f, mt, g - 1);
    } else {
        lemma_own_level(f, mt, family(f).1 - 1);
    }
}

/// Every name [`reaction_name`] gives is looked up by [`reaction_mt`] as
/// the MT it was given for.
pub proof fn lemma_reaction_name_round_trip(mt: i32)
    requires
        reaction_name_spec(mt) is Some,
    ensures
        reaction_mt_spec(reaction_name_spec(mt).unwrap()) == Some(mt),
{
    let name = reaction_name_spec(mt).unwrap();
    lemma_family_of(mt as int, 0);
    match family_of(mt as int, 0) {
        Some(f) => {
            lemma_family_shape(f);
            lemma_level_name_shape(family(f).2, mt - family(f).3);
            assert forall|k: int| 0 <= k <= 4 implies alias_entry(k).0 != name by {
                lemma_aliases_not_in_table(k);
            }
            lemma_no_alias(name, 4);
            lemma_own_family(f, mt as int, 6);
        },
        None => {
            let i = lemma_base_name_from(mt, 0);
            lemma_base_index(i);
            assert forall|k: int| 0 <= k <= 4 implies alias_entry(k).0 != name by {
                lemma_aliases_not_in_table(k);
            }
            lemma_no_alias(name, 4);
            lemma_no_level(name, 6);
            lemma_last_base(i, 110);
        },
    }
}

/// One fission neutron of an evaluation, by where its data comes from.
#[derive(Debug, Clone, Copy, PartialEq, Eq)]
pub struct FissionNeutron {
    /// Prompt for MT=456, total for MT=452, delayed for the precursor
    /// groups of MT=455. The yield is that section's; a delayed neutron's
    /// is one per fission unless `delayed_yield` says otherwise.
    pub emission_mode: EmissionMode,
    /// The decay constant of MT=455 a delayed neutron decays with, by index.
    pub group: Option<usize>,
    /// Whether the yield is MT=455's total delayed yield instead.
    pub delayed_yield: bool,
    /// The subsection of MF=5 MT=455 that gives this neutron's spectrum and
    /// its share of the yield, by index.
    pub spectrum: Option<usize>,
}

/// A fission neutron with nothing from MT=455 or MF=5 on it yet.
pub open spec fn bare_neutron(mode: EmissionMode, group: Option<usize>) -> FissionNeutron {
    FissionNeutron { emission_mode: mode, group, delayed_yield: false, spectrum: None }
}

/// Whether a neutron yield is given.
pub open spec fn nu_given(nu: Nu) -> bool {
    !(nu is Absent)
}

/// The prompt and total neutrons: the products, then the derived ones. The
/// total is derived when MT=456 is there, since it is then the sum of what
/// is already given.
pub open spec fn prompt_and_total(prompt: Option<Mf1Mt452>, total: Option<Mf1Mt452>) -> (
    Seq<FissionNeutron>,
    Seq<FissionNeutron>,
) {
    let p = if prompt matches Some(d) && nu_given(d.nu) {
        seq![bare_neutron(EmissionMode::Prompt, None)]
    } else {
        Seq::empty()
    };
    let t = if total matches Some(d) && nu_given(d.nu) {
        seq![bare_neutron(EmissionMode::Total, None)]
    } else {
        Seq::empty()
    };
    if prompt is Some {
        (p, t)
    } else {
        (p + t, Seq::empty())
    }
}

/// `before` followed by one delayed neutron per decay constant; where
/// MT=455 gives a yield, the last six products take it.
pub open spec fn with_delayed(before: Seq<FissionNeutron>, c: int, nu: bool) -> Seq<FissionNeutron> {
    let n = before.len() + c;
    Seq::new(
        n as nat,
        |j: int|
            {
                let x = if j < before.len() {
                    before[j]
                } else {
                    bare_neutron(EmissionMode::Delayed, Some((j - before.len()) as usize))
                };
                if nu && j >= n - 6 {
                    FissionNeutron { delayed_yield: true, ..x }
                } else {
                    x
                }
            },
    )
}

/// The products once MF=5 gives `nk` spectra for `c` decay constants: one
/// precursor group with several spectra is split, by copies of the second
/// product, one per further spectrum.
pub open spec fn split_groups(ps: Seq<FissionNeutron>, nk: int, c: int) -> Seq<FissionNeutron> {
    if nk > 1 && c == 1 {
        ps + Seq::new((nk - 1) as nat, |j: int| ps[1])
    } else {
        ps
    }
}

/// The products with the `i`-th spectrum on the product after the first,
/// for each of `n` spectra.
pub open spec fn with_spectra(ps: Seq<FissionNeutron>, n: int) -> Seq<FissionNeutron> {
    Seq::new(
        ps.len(),
        |j: int|
            if 1 <= j <= n {
                FissionNeutron { spectrum: Some((j - 1) as usize), ..ps[j] }
            } else {
                ps[j]
            },
    )
}

/// The products before MF=5 is looked at.
pub open spec fn before_spectra(prompt: Option<Mf1Mt452>, total: Option<Mf1Mt452>, d: Mf1Mt455) -> Seq<
    FissionNeutron,
> {
    with_delayed(prompt_and_total(prompt, total).0, d.lambda@.len() as int, nu_given(d.nu))
}

/// Whether MF=5 gives a number of spectra that fits neither the decay
/// constants nor a single group to split.
pub open spec fn spectra_mismatched(d: Mf1Mt455, s: Mf5) -> bool {
    let nk = (s.nk as usize) as int;
    let c = d.lambda@.len() as int;
    !(nk > 1 && c == 1) && nk != c
}

/// Whether the fission neutrons can be laid out: a single group is split
/// only where a product stands before it, for a count of spectra that is
/// not negative, and each spectrum has a product after the first to go on.
pub open spec fn fission_neutrons_defined(
    prompt: Option<Mf1Mt452>,
    total: Option<Mf1Mt452>,
    delayed: Option<Mf1Mt455>,
    spectra: Option<Mf5>,
) -> bool {
    match (delayed, spectra) {
        (Some(d), Some(s)) => d.ldg == 0 && !spectra_mismatched(d, s) ==> {
            let ps = before_spectra(prompt, total, d);
            let nk = (s.nk as usize) as int;
            let c = d.lambda@.len() as int;
            &&& nk > 1 && c == 1 ==> s.nk >= 0 && ps.len() > 1
            &&& 1 + s.subsections@.len() <= split_groups(ps, nk, c).len()
        },
        _ => true,
    }
}

/// Whether a neutron yield is given.
fn nu_present(nu: &Nu) -> (b: bool)
    ensures
        b == nu_given(*nu),
{
    match nu {
        Nu::Absent => false,
        _ => true,
    }
}

/// Whether [`fission_neutrons`] can lay out these sections; where it
/// cannot, a reader indexing the products as the format's order implies
/// would run past their end.
pub fn fission_neutrons_fit(
    prompt: &Option<Mf1Mt452>,
    total: &Option<Mf1Mt452>,
    delayed: &Option<Mf1Mt455>,
    spectra: &Option<Mf5>,
) -> (b: bool)
    ensures
        b == fission_neutrons_defined(*prompt, *total, *delayed, *spectra),
{
    let (d, s) = match (delayed, spectra) {
        (Some(d), Some(s)) => (d, s),
        _ => {
            return true;
        },
    };
    let nk = #[verifier::truncate] (s.nk as usize);
    let c = d.lambda.len();
    if d.ldg != 0 || (!(nk > 1 && c == 1) && nk != c) {
        return true;
    }
    let mut len: usize = 0;
    if let Some(p) = prompt {
        if nu_present(&p.nu) {
            len = 1;
        }
    } else if let Some(t) = total {
        if nu_present(&t.nu) {
            len = 1;
        }
    }
    assert(len == prompt_and_total(*prompt, *total).0.len());
    let before: u128 = len as u128 + c as u128;
    let after: u128 = if nk > 1 && c == 1 {
        if s.nk < 0 || before <= 1 {
            return false;
        }
        before + nk as u128 - 1
    } else {
        before
    };
    1 + (s.subsections.len() as u128) <= after
}

/// The prompt and total neutrons, as [`prompt_and_total`] lays them out.
fn prompt_and_total_exec(prompt: &Option<Mf1Mt452>, total: &Option<Mf1Mt452>) -> (r: (
    Vec<FissionNeutron>,
    Vec<FissionNeutron>,
))
    ensures
        r.0@ == prompt_and_total(*prompt, *total).0,
        r.1@ == prompt_and_total(*prompt, *total).1,
{
    let mut products: Vec<FissionNeutron> = Vec::new();
    let mut derived: Vec<FissionNeutron> = Vec::new();
    if let Some(p) = prompt {
        if nu_present(&p.nu) {
            products.push(
                FissionNeutron { emission_mode: EmissionMode::Prompt, group: None, delayed_yield: false, spectrum: None },
            );
        }
    }
    if let Some(t) = total {
        if nu_present(&t.nu) {
            let n = FissionNeutron {
                emission_mode: EmissionMode::Total,
                group: None,
                delayed_yield: false,
                spectrum: None,
            };
            if prompt.is_some() {
                derived.push(n);
            } else {
                products.push(n);
            }
        }
    }
    assert(products@ =~= prompt_and_total(*prompt, *total).0);
    assert(derived@ =~= prompt_and_total(*prompt, *total).1);
    (products, derived)
}

/// Add one delayed neutron per decay constant, and MT=455's yield on the
/// last six products where `given`.
fn add_delayed(products: &mut Vec<FissionNeutron>, c: usize, given: bool)
    ensures
        final(products)@ == with_delayed(old(products)@, c as int, given),
{
    let ghost before = old(products)@;
    let base = products.len();
    let mut k: usize = 0;
    while k < c
        invariant
            k <= c,
            base == before.len(),
            products@.len() == base + k,
            forall|j: int| 0 <= j < base ==> products@[j] == before[j],
            forall|j: int|
                base <= j < base + k ==> products@[j] == bare_neutron(EmissionMode::Delayed, Some((j - base) as usize)),
        decreases c - k,
    {
        products.push(
            FissionNeutron { emission_mode: EmissionMode::Delayed, group: Some(k), delayed_yield: false, spectrum: None },
        );
        k = k + 1;
    }
    let n = products.len();
    let start: usize = if given {
        if n >= 6 {
            n - 6
        } else {
            0
        }
    } else {
        n
    };
    let mut j: usize = start;
    while j < n
        invariant
            start <= j <= n,
            n == products@.len(),
            n == base + c,
            base == before.len(),
            given ==> start == (if n >= 6 {
                n - 6
            } else {
                0
            }),
            !given ==> start == n,
            forall|i: int|
                0 <= i < n ==> {
                    let x = if i < base {
                        before[i]
                    } else {
                        bare_neutron(EmissionMode::Delayed, Some((i - base) as usize))
                    };
                    #[trigger] products@[i] == if start <= i < j {
                        FissionNeutron { delayed_yield: true, ..x }
                    } else {
                        x
                    }
                },
        decreases n - j,
    {
        let x = products[j];
        products.set(j, FissionNeutron { delayed_yield: true, ..x });
        j = j + 1;
    }
    assert(products@ =~= with_delayed(before, c as int, given));
}

/// Split a single precursor group into `nk` by copies of the second
/// product.
fn split_group(products: &mut Vec<FissionNeutron>, nk: usize)
    requires
        old(products)@.len() > 1,
        nk > 1,
    ensures
        final(products)@ == old(products)@ + Seq::new((nk - 1) as nat, |j: int| old(products)@[1]),
{
    let ghost before = old(products)@;
    let template = products[1];
    let mut m: usize = 1;
    while m < nk
        invariant
            1 <= m <= nk,
            template == before[1],
            products@.len() == before.len() + (m - 1),
            forall|i: int| 0 <= i < before.len() ==> products@[i] == before[i],
            forall|i: int| before.len() <= i < products@.len() ==> products@[i] == before[1],
        decreases nk - m,
    {
        products.push(template);
        m = m + 1;
    }
    assert(products@ =~= before + Seq::new((nk - 1) as nat, |j: int| before[1]));
}

/// Put the `i`-th of `n` spectra on the product after the first.
fn add_spectra(products: &mut Vec<FissionNeutron>, n: usize)
    requires
        1 + n <= old(products)@.len(),
    ensures
        final(products)@ == with_spectra(old(products)@, n as int),
{
    let ghost before = old(products)@;
    let mut i: usize = 0;
    while i < n
        invariant
            i <= n,
            1 + n <= before.len(),
            products@.len() == before.len(),
            forall|j: int|
                0 <= j < before.len() ==> #[trigger] products@[j] == if 1 <= j <= i {
                    FissionNeutron { spectrum: Some((j - 1) as usize), ..before[j] }
                } else {
                    before[j]
                },
        decreases n - i,
    {
        let x = products[1 + i];
        products.set(1 + i, FissionNeutron { spectrum: Some(i), ..x });
        i = i + 1;
    }
    assert(products@ =~= with_spectra(before, n as int));
}

/// The fission neutrons of an evaluation, from MF=1 MT=456 (`prompt`),
/// MT=452 (`total`), MT=455 (`delayed`) and MF=5 MT=455 (`spectra`): the
/// products and the derived ones.
///
/// The prompt neutron comes first, then one delayed neutron per decay
/// constant; the total neutron is derived where MT=456 is there and a
/// product otherwise. MT=455's total delayed yield goes on the last six
/// products. Where MF=5 gives several spectra for one decay constant, that
/// group is split by copies of the second product; each spectrum then goes,
/// in order, on the products after the first. Energy-dependent group
/// constants are not supported, and a count of spectra that matches neither
/// the decay constants nor a single group is an error.
pub fn fission_neutrons(
    prompt: &Option<Mf1Mt452>,
    total: &Option<Mf1Mt452>,
    delayed: &Option<Mf1Mt455>,
    spectra: &Option<Mf5>,
) -> (r: Result<(Vec<FissionNeutron>, Vec<FissionNeutron>)>)
    requires
        fission_neutrons_defined(*prompt, *total, *delayed, *spectra),
    ensures
        ({
            let (p, t) = prompt_and_total(*prompt, *total);
            match *delayed {
                None => r matches Ok((ps, ds)) && ps@ == p && ds@ == t,
                Some(d) => if d.ldg != 0 {
                    r matches Err(e) && e is Unsupported
                } else {
                    let ps0 = before_spectra(*prompt, *total, d);
                    match *spectra {
                        None => r matches Ok((ps, ds)) && ps@ == ps0 && ds@ == t,
                        Some(s) => if spectra_mismatched(d, s) {
                            r matches Err(e) && e is Mismatched
                        } else {
                            r matches Ok((ps, ds)) && ds@ == t && ps@ == with_spectra(
                                split_groups(ps0, (s.nk as usize) as int, d.lambda@.len() as int),
                                s.subsections@.len() as int,
                            )
                        },
                    }
                },
            }
        }),
{
    let (mut products, derived) = prompt_and_total_exec(prompt, total);
    let d = match delayed {
        None => {
            return Ok((products, derived));
        },
        Some(d) => d,
    };
    if d.ldg != 0 {
        return Err(Error::Unsupported { what: "delayed neutrons with energy-dependent group constants" });
    }
    let c = d.lambda.len();
    add_delayed(&mut products, c, nu_present(&d.nu));
    let s = match spectra {
        None => {
            return Ok((products, derived));
        },
        Some(s) => s,
    };
    let nk = #[verifier::truncate] (s.nk as usize);
    if nk > 1 && c == 1 {
        split_group(&mut products, nk);
    } else if nk != c {
        return Err(Error::Mismatched { what: "the number of delayed neutron spectra and precursors" });
    }
    add_spectra(&mut products, s.subsections.len());
    Ok((products, derived))
}


/// Where a reaction's outgoing neutron takes its energy distribution from,
/// when it is built from MF=4 and MF=5.
#[derive(Debug, Clone, Copy, PartialEq, Eq)]
pub enum NeutronEnergy {
    /// The subsections of MF=5, each with its probability.
    Mf5,
    /// Elastic scattering: the kinematics fix the energy.
    Elastic,
    /// Level inelastic scattering: a threshold and a mass ratio, from the
    /// Q value and the AWR of MF=1 MT=451.
    LevelInelastic,
    /// None is given: the neutron has no distribution.
    Absent,
}

/// One step of gathering a reaction's products, in the order they are
/// taken.
#[derive(Debug, Clone, Copy, PartialEq, Eq)]
pub enum ProductStep {
    /// Add product `i` of MF=6, with its yield.
    Mf6(usize),
    /// MF=6 product `i` is the fission neutron: its distribution replaces
    /// that of the first fission neutron from MF=1.
    Mf6IntoFission(usize),
    /// Build a neutron from MF=4 and MF=5: its energy distribution from
    /// `energy`, the angle of MF=4 on each where `angle`, and its
    /// distribution put on the first fission neutron where `into_fission`,
    /// else the neutron added.
    Neutron { energy: NeutronEnergy, angle: bool, into_fission: bool },
    /// Merge in the radioactive products that MF=8 announces.
    Activation,
}

/// Whether `mt` is one of the fission reactions.
pub open spec fn is_fission_mt(mt: i32) -> bool {
    mt == 18 || mt == 19 || mt == 20 || mt == 21 || mt == 38
}

/// The text of each name.
pub open spec fn names_view(v: Seq<String>) -> Seq<Seq<char>> {
    v.map_values(|s: String| s@)
}

/// What MF=6 product `i`, named `name`, becomes.
pub open spec fn mf6_step(i: int, name: Seq<char>, merge: bool) -> ProductStep {
    if merge && name == "neutron"@ {
        ProductStep::Mf6IntoFission(i as usize)
    } else {
        ProductStep::Mf6(i as usize)
    }
}

/// The energy distribution an MF=4/MF=5 neutron of reaction `mt` has.
pub open spec fn neutron_energy(mt: i32, has_mf5: bool) -> NeutronEnergy {
    if has_mf5 {
        NeutronEnergy::Mf5
    } else if mt == 2 {
        NeutronEnergy::Elastic
    } else if 51 <= mt < 91 {
        NeutronEnergy::LevelInelastic
    } else {
        NeutronEnergy::Absent
    }
}

/// The steps that gather the products of reaction `mt`, after the
/// `n_fission` fission neutrons of MF=1: MF=6 where the reaction has it
/// (`mf6` names its products), else one neutron from MF=4/MF=5 where it has
/// either, then the radioactive products where it has MF=8. Level inelastic
/// scattering without MF=1 MT=451 cannot be read.
pub open spec fn product_plan(
    mt: i32,
    n_fission: int,
    has_mf6: bool,
    mf6: Seq<Seq<char>>,
    has_mf4: bool,
    has_mf5: bool,
    has_mf451: bool,
    has_mf8: bool,
) -> core::result::Result<Seq<ProductStep>, Error> {
    let merge = is_fission_mt(mt) && n_fission > 0;
    let tail: Seq<ProductStep> = if has_mf8 {
        seq![ProductStep::Activation]
    } else {
        Seq::empty()
    };
    if has_mf6 {
        Ok(Seq::new(mf6.len(), |i: int| mf6_step(i, mf6[i], merge)) + tail)
    } else if has_mf4 || has_mf5 {
        let energy = neutron_energy(mt, has_mf5);
        if energy == NeutronEnergy::LevelInelastic && !has_mf451 {
            Err(Error::Unsupported { what: "level inelastic scattering without MF=1 MT=451" })
        } else {
            Ok(seq![ProductStep::Neutron { energy, angle: has_mf4, into_fission: merge && has_mf5 }] + tail)
        }
    } else {
        Ok(tail)
    }
}

/// A plan as a sequence, its error unchanged.
pub open spec fn plan_view(r: Result<Vec<ProductStep>>) -> core::result::Result<Seq<ProductStep>, Error> {
    match r {
        Ok(v) => Ok(v@),
        Err(e) => Err(e),
    }
}

/// Plan how the products of reaction `mt` are gathered from the files the
/// material has for it; see [`product_plan`].
pub fn reaction_product_plan(
    mt: i32,
    n_fission: usize,
    has_mf6: bool,
    mf6_names: &Vec<String>,
    has_mf4: bool,
    has_mf5: bool,
    has_mf451: bool,
    has_mf8: bool,
) -> (r: Result<Vec<ProductStep>>)
    ensures
        plan_view(r) == product_plan(
            mt,
            n_fission as int,
            has_mf6,
            names_view(mf6_names@),
            has_mf4,
            has_mf5,
            has_mf451,
            has_mf8,
        ),
{
    let merge = (mt == 18 || mt == 19 || mt == 20 || mt == 21 || mt == 38) && n_fission > 0;
    let mut steps: Vec<ProductStep> = Vec::new();
    if has_mf6 {
        let mut i: usize = 0;
        while i < mf6_names.len()
            invariant
                i <= mf6_names@.len(),
                steps@ == Seq::new(i as nat, |j: int| mf6_step(j, names_view(mf6_names@)[j], merge)),
            decreases mf6_names.len() - i,
        {
            let neutron = str_eq(mf6_names[i].as_str(), "neutron");
            proof {
                reveal_strlit("neutron");
                assert(names_view(mf6_names@)[i as int] == mf6_names@[i as int]@);
            }
            if merge && neutron {
                steps.push(ProductStep::Mf6IntoFission(i));
            } else {
                steps.push(ProductStep::Mf6(i));
            }
            i = i + 1;
            assert(steps@ =~= Seq::new(i as nat, |j: int| mf6_step(j, names_view(mf6_names@)[j], merge)));
        }
    } else if has_mf4 || has_mf5 {
        let energy = if has_mf5 {
            NeutronEnergy::Mf5
        } else if mt == 2 {
            NeutronEnergy::Elastic
        } else if 51 <= mt && mt < 91 {
            NeutronEnergy::LevelInelastic
        } else {
            NeutronEnergy::Absent
        };
        if !has_mf5 && mt != 2 && 51 <= mt && mt < 91 && !has_mf451 {
            return Err(Error::Unsupported { what: "level inelastic scattering without MF=1 MT=451" });
        }
        steps.push(ProductStep::Neutron { energy, angle: has_mf4, into_fission: merge && has_mf5 });
    }
    if has_mf8 {
        steps.push(ProductStep::Activation);
    }
    proof {
        let tail: Seq<ProductStep> = if has_mf8 {
            seq![ProductStep::Activation]
        } else {
            Seq::empty()
        };
        if has_mf6 {
            assert(steps@ =~= Seq::new(mf6_names@.len(), |j: int| mf6_step(j, names_view(mf6_names@)[j], merge)) + tail);
        } else if has_mf4 || has_mf5 {
            assert(steps@ =~= seq![ProductStep::Neutron { energy: neutron_energy(mt, has_mf5), angle: has_mf4, into_fission: merge && has_mf5 }] + tail);
        } else {
            assert(steps@ =~= tail);
        }
    }
    Ok(steps)
}


/// The first name of `list` from the `i`-th on that equals `x`.
pub open spec fn first_named(list: Seq<Seq<char>>, x: Seq<char>, i: int) -> Option<int>
    decreases list.len() - i,
{
    if i < 0 || i >= list.len() {
        None
    } else if list[i] == x {
        Some(i)
    } else {
        first_named(list, x, i + 1)
    }
}

/// Merging the products named `added` into those named `list`, in order:
/// one that has a namesake among the products so far replaces that
/// product's yield (the first of that name), any other is added. Gives the
/// names after the merge, and for each added product the one it went onto.
pub open spec fn merge_spec(list: Seq<Seq<char>>, added: Seq<Seq<char>>) -> (Seq<Seq<char>>, Seq<Option<int>>)
    decreases added.len(),
{
    if added.len() == 0 {
        (list, Seq::empty())
    } else {
        let (l, steps) = merge_spec(list, added.drop_last());
        let x = added.last();
        match first_named(l, x, 0) {
            Some(i) => (l, steps.push(Some(i))),
            None => (l.push(x), steps.push(None)),
        }
    }
}

/// Each optional index as an integer.
pub open spec fn targets_view(v: Seq<Option<usize>>) -> Seq<Option<int>> {
    v.map_values(|o: Option<usize>| match o {
        Some(i) => Some(i as int),
        None => None,
    })
}

/// Where each added product goes when merged by name into the products
/// named `names`: `Some(i)` onto product `i`, `None` added at the end; see
/// [`merge_spec`].
pub fn merge_by_name(names: &Vec<String>, added: &Vec<String>) -> (r: Vec<Option<usize>>)
    ensures
        targets_view(r@) == merge_spec(names_view(names@), names_view(added@)).1,
{
    let mut list: Vec<String> = Vec::new();
    let mut i: usize = 0;
    while i < names.len()
        invariant
            i <= names@.len(),
            names_view(list@) == names_view(names@).take(i as int),
        decreases names.len() - i,
    {
        let ghost l0 = list@;
        let c = names[i].clone();
        list.push(c);
        assert(names_view(list@) =~= names_view(l0).push(names@[i as int]@));
        i = i + 1;
        assert(names_view(list@) =~= names_view(names@).take(i as int));
    }
    assert(names_view(names@).take(i as int) =~= names_view(names@));
    let mut r: Vec<Option<usize>> = Vec::new();
    let mut k: usize = 0;
    assert(names_view(added@).take(0) =~= Seq::<Seq<char>>::empty());
    while k < added.len()
        invariant
            k <= added@.len(),
            merge_spec(names_view(names@), names_view(added@).take(k as int)) == (names_view(list@), targets_view(r@)),
        decreases added.len() - k,
    {
        let ghost l = names_view(list@);
        let x = &added[k];
        let mut j: usize = 0;
        while j < list.len() && !str_eq(list[j].as_str(), x.as_str())
            invariant
                j <= list@.len(),
                l == names_view(list@),
                first_named(l, x@, 0) == first_named(l, x@, j as int),
            decreases list.len() - j,
        {
            j = j + 1;
        }
        proof {
            let pre = names_view(added@).take(k as int);
            let now = names_view(added@).take(k + 1);
            assert(now.drop_last() =~= pre);
            assert(now.last() == added@[k as int]@);
        }
        let ghost r0 = r@;
        if j < list.len() {
            r.push(Some(j));
            assert(targets_view(r@) =~= targets_view(r0).push(Some(j as int)));
        } else {
            list.push(x.clone());
            r.push(None);
            assert(targets_view(r@) =~= targets_view(r0).push(None));
            assert(names_view(list@) =~= l.push(x@));
        }
        k = k + 1;
    }
    assert(names_view(added@).take(k as int) =~= names_view(added@));
    r
}

} // verus!
