//! Depletion chains: which nuclides turn into which.
//!
//! What stands here is the part of a chain that is bookkeeping on names and
//! numbers: the transmutation reactions a chain can follow, and the stand-ins
//! chosen for a product with no decay data or an actinide with no fission
//! yields.

use vstd::prelude::*;

use crate::data::{
    atomic_symbol, gnds_name, gnds_spec, lemma_atomic_number_of_symbol, symbol, symbol_or_unknown, zam,
    zam_spec, NameFailure,
};
use crate::text::{
    all_digits, chars_eq, chars_lt, chars_of, decimal, digits_upto, digits_value, is_digit, push_decimal, push_signed,
    signed_decimal, slice_chars, str_eq, string_from_chars, string_push,
};

verus! {

broadcast use vstd::string::group_string_axioms;

/// One transmutation reaction: which MTs mean it, what it does to the mass and
/// atomic numbers, and what else comes out.
#[derive(Debug, Clone, PartialEq, Eq)]
pub struct ReactionInfo {
    /// The reaction's name, e.g. `"(n,2n)"`.
    pub name: String,
    /// Every MT that means this reaction. More than one where the format
    /// numbers the levels separately.
    pub mts: Vec<i32>,
    /// Change in the mass number.
    pub delta_a: i64,
    /// Change in the atomic number.
    pub delta_z: i64,
    /// The light nuclides emitted alongside.
    pub secondaries: Vec<String>,
}

/// The light nuclide a chain's secondaries are numbered by: 1 `H1`, 2 `H2`,
/// 3 `H3`, 4 `He3`, 5 `He4`.
pub open spec fn light_nuclide(code: int) -> Seq<char> {
    if code == 1 {
        seq!['H', '1']
    } else if code == 2 {
        seq!['H', '2']
    } else if code == 3 {
        seq!['H', '3']
    } else if code == 4 {
        seq!['H', 'e', '3']
    } else {
        seq!['H', 'e', '4']
    }
}

fn light_nuclide_exec(code: u8) -> (r: Vec<char>)
    ensures
        r@ == light_nuclide(code as int),
{
    if code == 1 {
        vec!['H', '1']
    } else if code == 2 {
        vec!['H', '2']
    } else if code == 3 {
        vec!['H', '3']
    } else if code == 4 {
        vec!['H', 'e', '3']
    } else {
        vec!['H', 'e', '4']
    }
}

/// Whether a reaction holds what a table entry says.
pub open spec fn info_matches(r: ReactionInfo, e: (Seq<char>, Seq<i32>, int, int, Seq<u8>)) -> bool {
    &&& r.name@ =~= e.0
    &&& r.mts@ =~= e.1
    &&& r.delta_a == e.2
    &&& r.delta_z == e.3
    &&& r.secondaries@.len() == e.4.len()
    &&& forall|k: int| 0 <= k < e.4.len() ==> #[trigger] r.secondaries@[k]@ == light_nuclide(e.4[k] as int)
}

/// A reaction built from its parts.
fn build_info(name: &Vec<char>, mts: Vec<i32>, delta_a: i64, delta_z: i64, secondaries: &Vec<u8>) -> (r:
    ReactionInfo)
    ensures
        r.name@ == name@,
        r.mts@ == mts@,
        r.delta_a == delta_a,
        r.delta_z == delta_z,
        r.secondaries@.len() == secondaries@.len(),
        forall|k: int|
            0 <= k < secondaries@.len() ==> #[trigger] r.secondaries@[k]@ == light_nuclide(
                secondaries@[k] as int,
            ),
{
    let mut secs: Vec<String> = Vec::new();
    let mut i: usize = 0;
    while i < secondaries.len()
        invariant
            i <= secondaries.len(),
            secs@.len() == i,
            forall|k: int|
                0 <= k < i ==> #[trigger] secs@[k]@ == light_nuclide(secondaries@[k] as int),
        decreases secondaries.len() - i,
    {
        secs.push(string_from_chars(&light_nuclide_exec(secondaries[i])));
        i = i + 1;
    }
    ReactionInfo { name: string_from_chars(name), mts, delta_a, delta_z, secondaries: secs }
}

/// The `i`-th transmutation reaction a chain can follow: its name, every MT
/// that means it, the change in the mass and atomic numbers, and the light
/// nuclides emitted alongside, by their [`light_nuclide`] numbers.
pub open spec fn reaction_entry(i: int) -> (Seq<char>, Seq<i32>, int, int, Seq<u8>) {
    if i == 0 {
        (seq!['(', 'n', ',', '2', 'n', 'd', ')'], seq![11i32], -3, -1, seq![2u8])
    } else if i == 1 {
        (seq!['(', 'n', ',', '2', 'n', ')'], seq![16i32, 875i32, 876i32, 877i32, 878i32, 879i32, 880i32, 881i32, 882i32, 883i32, 884i32, 885i32, 886i32, 887i32, 888i32, 889i32, 890i32, 891i32], -1, 0, Seq::empty())
    } else if i == 2 {
        (seq!['(', 'n', ',', '3', 'n', ')'], seq![17i32], -2, 0, Seq::empty())
    } else if i == 3 {
        (seq!['(', 'n', ',', 'n', 'a', ')'], seq![22i32], -4, -2, seq![5u8])
    } else if i == 4 {
        (seq!['(', 'n', ',', 'n', '3', 'a', ')'], seq![23i32], -12, -6, seq![5u8, 5u8, 5u8])
    } else if i == 5 {
        (seq!['(', 'n', ',', '2', 'n', 'a', ')'], seq![24i32], -5, -2, seq![5u8])
    } else if i == 6 {
        (seq!['(', 'n', ',', '3', 'n', 'a', ')'], seq![25i32], -6, -2, seq![5u8])
    } else if i == 7 {
        (seq!['(', 'n', ',', 'n', 'p', ')'], seq![28i32], -1, -1, seq![1u8])
    } else if i == 8 {
        (seq!['(', 'n', ',', 'n', '2', 'a', ')'], seq![29i32], -8, -4, seq![5u8, 5u8])
    } else if i == 9 {
        (seq!['(', 'n', ',', '2', 'n', '2', 'a', ')'], seq![30i32], -9, -4, seq![5u8, 5u8])
    } else if i == 10 {
        (seq!['(', 'n', ',', 'n', 'd', ')'], seq![32i32], -2, -1, seq![2u8])
    } else if i == 11 {
        (seq!['(', 'n', ',', 'n', 't', ')'], seq![33i32], -3, -1, seq![3u8])
    } else if i == 12 {
        (seq!['(', 'n', ',', 'n', '3', 'H', 'e', ')'], seq![34i32], -3, -2, seq![4u8])
    } else if i == 13 {
        (seq!['(', 'n', ',', 'n', 'd', '2', 'a', ')'], seq![35i32], -10, -5, seq![2u8, 5u8, 5u8])
    } else if i == 14 {
        (seq!['(', 'n', ',', 'n', 't', '2', 'a', ')'], seq![36i32], -11, -5, seq![3u8, 5u8, 5u8])
    } else if i == 15 {
        (seq!['(', 'n', ',', '4', 'n', ')'], seq![37i32], -3, 0, Seq::empty())
    } else if i == 16 {
        (seq!['(', 'n', ',', '2', 'n', 'p', ')'], seq![41i32], -2, -1, seq![1u8])
    } else if i == 17 {
        (seq!['(', 'n', ',', '3', 'n', 'p', ')'], seq![42i32], -3, -1, seq![1u8])
    } else if i == 18 {
        (seq!['(', 'n', ',', 'n', '2', 'p', ')'], seq![44i32], -2, -2, seq![1u8, 1u8])
    } else if i == 19 {
        (seq!['(', 'n', ',', 'n', 'p', 'a', ')'], seq![45i32], -5, -3, seq![1u8, 5u8])
    } else if i == 20 {
        (seq!['(', 'n', ',', 'g', 'a', 'm', 'm', 'a', ')'], seq![102i32], 1, 0, Seq::empty())
    } else if i == 21 {
        (seq!['(', 'n', ',', 'p', ')'], seq![103i32, 600i32, 601i32, 602i32, 603i32, 604i32, 605i32, 606i32, 607i32, 608i32, 609i32, 610i32, 611i32, 612i32, 613i32, 614i32, 615i32, 616i32, 617i32, 618i32, 619i32, 620i32, 621i32, 622i32, 623i32, 624i32, 625i32, 626i32, 627i32, 628i32, 629i32, 630i32, 631i32, 632i32, 633i32, 634i32, 635i32, 636i32, 637i32, 638i32, 639i32, 640i32, 641i32, 642i32, 643i32, 644i32, 645i32, 646i32, 647i32, 648i32, 649i32], 0, -1, seq![1u8])
    } else if i == 22 {
        (seq!['(', 'n', ',', 'd', ')'], seq![104i32, 650i32, 651i32, 652i32, 653i32, 654i32, 655i32, 656i32, 657i32, 658i32, 659i32, 660i32, 661i32, 662i32, 663i32, 664i32, 665i32, 666i32, 667i32, 668i32, 669i32, 670i32, 671i32, 672i32, 673i32, 674i32, 675i32, 676i32, 677i32, 678i32, 679i32, 680i32, 681i32, 682i32, 683i32, 684i32, 685i32, 686i32, 687i32, 688i32, 689i32, 690i32, 691i32, 692i32, 693i32, 694i32, 695i32, 696i32, 697i32, 698i32, 699i32], -1, -1, seq![2u8])
    } else if i == 23 {
        (seq!['(', 'n', ',', 't', ')'], seq![105i32, 700i32, 701i32, 702i32, 703i32, 704i32, 705i32, 706i32, 707i32, 708i32, 709i32, 710i32, 711i32, 712i32, 713i32, 714i32, 715i32, 716i32, 717i32, 718i32, 719i32, 720i32, 721i32, 722i32, 723i32, 724i32, 725i32, 726i32, 727i32, 728i32, 729i32, 730i32, 731i32, 732i32, 733i32, 734i32, 735i32, 736i32, 737i32, 738i32, 739i32, 740i32, 741i32, 742i32, 743i32, 744i32, 745i32, 746i32, 747i32, 748i32, 749i32], -2, -1, seq![3u8])
    } else if i == 24 {
        (seq!['(', 'n', ',', '3', 'H', 'e', ')'], seq![106i32, 750i32, 751i32, 752i32, 753i32, 754i32, 755i32, 756i32, 757i32, 758i32, 759i32, 760i32, 761i32, 762i32, 763i32, 764i32, 765i32, 766i32, 767i32, 768i32, 769i32, 770i32, 771i32, 772i32, 773i32, 774i32, 775i32, 776i32, 777i32, 778i32, 779i32, 780i32, 781i32, 782i32, 783i32, 784i32, 785i32, 786i32, 787i32, 788i32, 789i32, 790i32, 791i32, 792i32, 793i32, 794i32, 795i32, 796i32, 797i32, 798i32, 799i32], -2, -2, seq![4u8])
    } else if i == 25 {
        (seq!['(', 'n', ',', 'a', ')'], seq![107i32, 800i32, 801i32, 802i32, 803i32, 804i32, 805i32, 806i32, 807i32, 808i32, 809i32, 810i32, 811i32, 812i32, 813i32, 814i32, 815i32, 816i32, 817i32, 818i32, 819i32, 820i32, 821i32, 822i32, 823i32, 824i32, 825i32, 826i32, 827i32, 828i32, 829i32, 830i32, 831i32, 832i32, 833i32, 834i32, 835i32, 836i32, 837i32, 838i32, 839i32, 840i32, 841i32, 842i32, 843i32, 844i32, 845i32, 846i32, 847i32, 848i32, 849i32], -3, -2, seq![5u8])
    } else if i == 26 {
        (seq!['(', 'n', ',', '2', 'a', ')'], seq![108i32], -7, -4, seq![5u8, 5u8])
    } else if i == 27 {
        (seq!['(', 'n', ',', '3', 'a', ')'], seq![109i32], -11, -6, seq![5u8, 5u8, 5u8])
    } else if i == 28 {
        (seq!['(', 'n', ',', '2', 'p', ')'], seq![111i32], -1, -2, seq![1u8, 1u8])
    } else if i == 29 {
        (seq!['(', 'n', ',', 'p', 'a', ')'], seq![112i32], -4, -3, seq![1u8, 5u8])
    } else if i == 30 {
        (seq!['(', 'n', ',', 't', '2', 'a', ')'], seq![113i32], -10, -5, seq![3u8, 5u8, 5u8])
    } else if i == 31 {
        (seq!['(', 'n', ',', 'd', '2', 'a', ')'], seq![114i32], -9, -5, seq![2u8, 5u8, 5u8])
    } else if i == 32 {
        (seq!['(', 'n', ',', 'p', 'd', ')'], seq![115i32], -2, -2, seq![1u8, 2u8])
    } else if i == 33 {
        (seq!['(', 'n', ',', 'p', 't', ')'], seq![116i32], -3, -2, seq![1u8, 3u8])
    } else if i == 34 {
        (seq!['(', 'n', ',', 'd', 'a', ')'], seq![117i32], -5, -3, seq![2u8, 5u8])
    } else if i == 35 {
        (seq!['(', 'n', ',', '5', 'n', ')'], seq![152i32], -4, 0, Seq::empty())
    } else if i == 36 {
        (seq!['(', 'n', ',', '6', 'n', ')'], seq![153i32], -5, 0, Seq::empty())
    } else if i == 37 {
        (seq!['(', 'n', ',', '2', 'n', 't', ')'], seq![154i32], -4, -1, seq![3u8])
    } else if i == 38 {
        (seq!['(', 'n', ',', 't', 'a', ')'], seq![155i32], -6, -3, seq![3u8, 5u8])
    } else if i == 39 {
        (seq!['(', 'n', ',', '4', 'n', 'p', ')'], seq![156i32], -4, -1, seq![1u8])
    } else if i == 40 {
        (seq!['(', 'n', ',', '3', 'n', 'd', ')'], seq![157i32], -4, -1, seq![2u8])
    } else if i == 41 {
        (seq!['(', 'n', ',', 'n', 'd', 'a', ')'], seq![158i32], -6, -3, seq![2u8, 5u8])
    } else if i == 42 {
        (seq!['(', 'n', ',', '2', 'n', 'p', 'a', ')'], seq![159i32], -6, -3, seq![1u8, 5u8])
    } else if i == 43 {
        (seq!['(', 'n', ',', '7', 'n', ')'], seq![160i32], -6, 0, Seq::empty())
    } else if i == 44 {
        (seq!['(', 'n', ',', '8', 'n', ')'], seq![161i32], -7, 0, Seq::empty())
    } else if i == 45 {
        (seq!['(', 'n', ',', '5', 'n', 'p', ')'], seq![162i32], -5, -1, seq![1u8])
    } else if i == 46 {
        (seq!['(', 'n', ',', '6', 'n', 'p', ')'], seq![163i32], -6, -1, seq![1u8])
    } else if i == 47 {
        (seq!['(', 'n', ',', '7', 'n', 'p', ')'], seq![164i32], -7, -1, seq![1u8])
    } else if i == 48 {
        (seq!['(', 'n', ',', '4', 'n', 'a', ')'], seq![165i32], -7, -2, seq![5u8])
    } else if i == 49 {
        (seq!['(', 'n', ',', '5', 'n', 'a', ')'], seq![166i32], -8, -2, seq![5u8])
    } else if i == 50 {
        (seq!['(', 'n', ',', '6', 'n', 'a', ')'], seq![167i32], -9, -2, seq![5u8])
    } else if i == 51 {
        (seq!['(', 'n', ',', '7', 'n', 'a', ')'], seq![168i32], -10, -2, seq![5u8])
    } else if i == 52 {
        (seq!['(', 'n', ',', '4', 'n', 'd', ')'], seq![169i32], -5, -1, seq![2u8])
    } else if i == 53 {
        (seq!['(', 'n', ',', '5', 'n', 'd', ')'], seq![170i32], -6, -1, seq![2u8])
    } else if i == 54 {
        (seq!['(', 'n', ',', '6', 'n', 'd', ')'], seq![171i32], -7, -1, seq![2u8])
    } else if i == 55 {
        (seq!['(', 'n', ',', '3', 'n', 't', ')'], seq![172i32], -5, -1, seq![3u8])
    } else if i == 56 {
        (seq!['(', 'n', ',', '4', 'n', 't', ')'], seq![173i32], -6, -1, seq![3u8])
    } else if i == 57 {
        (seq!['(', 'n', ',', '5', 'n', 't', ')'], seq![174i32], -7, -1, seq![3u8])
    } else if i == 58 {
        (seq!['(', 'n', ',', '6', 'n', 't', ')'], seq![175i32], -8, -1, seq![3u8])
    } else if i == 59 {
        (seq!['(', 'n', ',', '2', 'n', '3', 'H', 'e', ')'], seq![176i32], -4, -2, seq![4u8])
    } else if i == 60 {
        (seq!['(', 'n', ',', '3', 'n', '3', 'H', 'e', ')'], seq![177i32], -5, -2, seq![4u8])
    } else if i == 61 {
        (seq!['(', 'n', ',', '4', 'n', '3', 'H', 'e', ')'], seq![178i32], -6, -2, seq![4u8])
    } else if i == 62 {
        (seq!['(', 'n', ',', '3', 'n', '2', 'p', ')'], seq![179i32], -4, -2, seq![1u8, 1u8])
    } else if i == 63 {
        (seq!['(', 'n', ',', '3', 'n', '2', 'a', ')'], seq![180i32], -10, -4, seq![5u8, 5u8])
    } else if i == 64 {
        (seq!['(', 'n', ',', '3', 'n', 'p', 'a', ')'], seq![181i32], -7, -3, seq![1u8, 5u8])
    } else if i == 65 {
        (seq!['(', 'n', ',', 'd', 't', ')'], seq![182i32], -4, -2, seq![2u8, 3u8])
    } else if i == 66 {
        (seq!['(', 'n', ',', 'n', 'p', 'd', ')'], seq![183i32], -3, -2, seq![1u8, 2u8])
    } else if i == 67 {
        (seq!['(', 'n', ',', 'n', 'p', 't', ')'], seq![184i32], -4, -2, seq![1u8, 3u8])
    } else if i == 68 {
        (seq!['(', 'n', ',', 'n', 'd', 't', ')'], seq![185i32], -5, -2, seq![2u8, 3u8])
    } else if i == 69 {
        (seq!['(', 'n', ',', 'n', 'p', '3', 'H', 'e', ')'], seq![186i32], -4, -3, seq![1u8, 4u8])
    } else if i == 70 {
        (seq!['(', 'n', ',', 'n', 'd', '3', 'H', 'e', ')'], seq![187i32], -5, -3, seq![2u8, 4u8])
    } else if i == 71 {
        (seq!['(', 'n', ',', 'n', 't', '3', 'H', 'e', ')'], seq![188i32], -6, -3, seq![3u8, 4u8])
    } else if i == 72 {
        (seq!['(', 'n', ',', 'n', 't', 'a', ')'], seq![189i32], -7, -3, seq![3u8, 5u8])
    } else if i == 73 {
        (seq!['(', 'n', ',', '2', 'n', '2', 'p', ')'], seq![190i32], -3, -2, seq![1u8, 1u8])
    } else if i == 74 {
        (seq!['(', 'n', ',', 'p', '3', 'H', 'e', ')'], seq![191i32], -4, -3, seq![1u8, 4u8])
    } else if i == 75 {
        (seq!['(', 'n', ',', 'd', '3', 'H', 'e', ')'], seq![192i32], -5, -3, seq![2u8, 4u8])
    } else if i == 76 {
        (seq!['(', 'n', ',', '3', 'H', 'e', 'a', ')'], seq![193i32], -6, -4, seq![4u8, 5u8])
    } else if i == 77 {
        (seq!['(', 'n', ',', '4', 'n', '2', 'p', ')'], seq![194i32], -5, -2, seq![1u8, 1u8])
    } else if i == 78 {
        (seq!['(', 'n', ',', '4', 'n', '2', 'a', ')'], seq![195i32], -11, -4, seq![5u8, 5u8])
    } else if i == 79 {
        (seq!['(', 'n', ',', '4', 'n', 'p', 'a', ')'], seq![196i32], -8, -3, seq![1u8, 5u8])
    } else if i == 80 {
        (seq!['(', 'n', ',', '3', 'p', ')'], seq![197i32], -2, -3, seq![1u8, 1u8, 1u8])
    } else if i == 81 {
        (seq!['(', 'n', ',', 'n', '3', 'p', ')'], seq![198i32], -3, -3, seq![1u8, 1u8, 1u8])
    } else if i == 82 {
        (seq!['(', 'n', ',', '3', 'n', '2', 'p', 'a', ')'], seq![199i32], -8, -4, seq![1u8, 1u8, 5u8])
    } else if i == 83 {
        (seq!['(', 'n', ',', '5', 'n', '2', 'p', ')'], seq![200i32], -6, -2, seq![1u8, 1u8])
    } else {
        (Seq::empty(), Seq::empty(), 0, 0, Seq::empty())
    }
}

/// The `i`-th transmutation reaction, built.
fn reaction_entry_exec(i: usize) -> (r: ReactionInfo)
    requires
        i < 84,
    ensures
        info_matches(r, reaction_entry(i as int)),
{
    if i < 14 {
        reaction_entries_from_0(i)
    } else if i < 28 {
        reaction_entries_from_14(i)
    } else if i < 42 {
        reaction_entries_from_28(i)
    } else if i < 56 {
        reaction_entries_from_42(i)
    } else if i < 70 {
        reaction_entries_from_56(i)
    } else {
        reaction_entries_from_70(i)
    }
}

/// The transmutation reactions numbered 0 to 13, built.
fn reaction_entries_from_0(i: usize) -> (r: ReactionInfo)
    requires
        0 <= i < 14,
    ensures
        info_matches(r, reaction_entry(i as int)),
{
    if i == 0 {
        build_info(&vec!['(', 'n', ',', '2', 'n', 'd', ')'], vec![11], -3, -1, &vec![2])
    } else if i == 1 {
        build_info(&vec!['(', 'n', ',', '2', 'n', ')'], vec![16, 875, 876, 877, 878, 879, 880, 881, 882, 883, 884, 885, 886, 887, 888, 889, 890, 891], -1, 0, &Vec::new())
    } else if i == 2 {
        build_info(&vec!['(', 'n', ',', '3', 'n', ')'], vec![17], -2, 0, &Vec::new())
    } else if i == 3 {
        build_info(&vec!['(', 'n', ',', 'n', 'a', ')'], vec![22], -4, -2, &vec![5])
    } else if i == 4 {
        build_info(&vec!['(', 'n', ',', 'n', '3', 'a', ')'], vec![23], -12, -6, &vec![5, 5, 5])
    } else if i == 5 {
        build_info(&vec!['(', 'n', ',', '2', 'n', 'a', ')'], vec![24], -5, -2, &vec![5])
    } else if i == 6 {
        build_info(&vec!['(', 'n', ',', '3', 'n', 'a', ')'], vec![25], -6, -2, &vec![5])
    } else if i == 7 {
        build_info(&vec!['(', 'n', ',', 'n', 'p', ')'], vec![28], -1, -1, &vec![1])
    } else if i == 8 {
        build_info(&vec!['(', 'n', ',', 'n', '2', 'a', ')'], vec![29], -8, -4, &vec![5, 5])
    } else if i == 9 {
        build_info(&vec!['(', 'n', ',', '2', 'n', '2', 'a', ')'], vec![30], -9, -4, &vec![5, 5])
    } else if i == 10 {
        build_info(&vec!['(', 'n', ',', 'n', 'd', ')'], vec![32], -2, -1, &vec![2])
    } else if i == 11 {
        build_info(&vec!['(', 'n', ',', 'n', 't', ')'], vec![33], -3, -1, &vec![3])
    } else if i == 12 {
        build_info(&vec!['(', 'n', ',', 'n', '3', 'H', 'e', ')'], vec![34], -3, -2, &vec![4])
    } else {
        build_info(&vec!['(', 'n', ',', 'n', 'd', '2', 'a', ')'], vec![35], -10, -5, &vec![2, 5, 5])
    }
}

/// The transmutation reactions numbered 14 to 27, built.
fn reaction_entries_from_14(i: usize) -> (r: ReactionInfo)
    requires
        14 <= i < 28,
    ensures
        info_matches(r, reaction_entry(i as int)),
{
    if i == 14 {
        build_info(&vec!['(', 'n', ',', 'n', 't', '2', 'a', ')'], vec![36], -11, -5, &vec![3, 5, 5])
    } else if i == 15 {
        build_info(&vec!['(', 'n', ',', '4', 'n', ')'], vec![37], -3, 0, &Vec::new())
    } else if i == 16 {
        build_info(&vec!['(', 'n', ',', '2', 'n', 'p', ')'], vec![41], -2, -1, &vec![1])
    } else if i == 17 {
        build_info(&vec!['(', 'n', ',', '3', 'n', 'p', ')'], vec![42], -3, -1, &vec![1])
    } else if i == 18 {
        build_info(&vec!['(', 'n', ',', 'n', '2', 'p', ')'], vec![44], -2, -2, &vec![1, 1])
    } else if i == 19 {
        build_info(&vec!['(', 'n', ',', 'n', 'p', 'a', ')'], vec![45], -5, -3, &vec![1, 5])
    } else if i == 20 {
        build_info(&vec!['(', 'n', ',', 'g', 'a', 'm', 'm', 'a', ')'], vec![102], 1, 0, &Vec::new())
    } else if i == 21 {
        build_info(&vec!['(', 'n', ',', 'p', ')'], vec![103, 600, 601, 602, 603, 604, 605, 606, 607, 608, 609, 610, 611, 612, 613, 614, 615, 616, 617, 618, 619, 620, 621, 622, 623, 624, 625, 626, 627, 628, 629, 630, 631, 632, 633, 634, 635, 636, 637, 638, 639, 640, 641, 642, 643, 644, 645, 646, 647, 648, 649], 0, -1, &vec![1])
    } else if i == 22 {
        build_info(&vec!['(', 'n', ',', 'd', ')'], vec![104, 650, 651, 652, 653, 654, 655, 656, 657, 658, 659, 660, 661, 662, 663, 664, 665, 666, 667, 668, 669, 670, 671, 672, 673, 674, 675, 676, 677, 678, 679, 680, 681, 682, 683, 684, 685, 686, 687, 688, 689, 690, 691, 692, 693, 694, 695, 696, 697, 698, 699], -1, -1, &vec![2])
    } else if i == 23 {
        build_info(&vec!['(', 'n', ',', 't', ')'], vec![105, 700, 701, 702, 703, 704, 705, 706, 707, 708, 709, 710, 711, 712, 713, 714, 715, 716, 717, 718, 719, 720, 721, 722, 723, 724, 725, 726, 727, 728, 729, 730, 731, 732, 733, 734, 735, 736, 737, 738, 739, 740, 741, 742, 743, 744, 745, 746, 747, 748, 749], -2, -1, &vec![3])
    } else if i == 24 {
        build_info(&vec!['(', 'n', ',', '3', 'H', 'e', ')'], vec![106, 750, 751, 752, 753, 754, 755, 756, 757, 758, 759, 760, 761, 762, 763, 764, 765, 766, 767, 768, 769, 770, 771, 772, 773, 774, 775, 776, 777, 778, 779, 780, 781, 782, 783, 784, 785, 786, 787, 788, 789, 790, 791, 792, 793, 794, 795, 796, 797, 798, 799], -2, -2, &vec![4])
    } else if i == 25 {
        build_info(&vec!['(', 'n', ',', 'a', ')'], vec![107, 800, 801, 802, 803, 804, 805, 806, 807, 808, 809, 810, 811, 812, 813, 814, 815, 816, 817, 818, 819, 820, 821, 822, 823, 824, 825, 826, 827, 828, 829, 830, 831, 832, 833, 834, 835, 836, 837, 838, 839, 840, 841, 842, 843, 844, 845, 846, 847, 848, 849], -3, -2, &vec![5])
    } else if i == 26 {
        build_info(&vec!['(', 'n', ',', '2', 'a', ')'], vec![108], -7, -4, &vec![5, 5])
    } else {
        build_info(&vec!['(', 'n', ',', '3', 'a', ')'], vec![109], -11, -6, &vec![5, 5, 5])
    }
}

/// The transmutation reactions numbered 28 to 41, built.
fn reaction_entries_from_28(i: usize) -> (r: ReactionInfo)
    requires
        28 <= i < 42,
    ensures
        info_matches(r, reaction_entry(i as int)),
{
    if i == 28 {
        build_info(&vec!['(', 'n', ',', '2', 'p', ')'], vec![111], -1, -2, &vec![1, 1])
    } else if i == 29 {
        build_info(&vec!['(', 'n', ',', 'p', 'a', ')'], vec![112], -4, -3, &vec![1, 5])
    } else if i == 30 {
        build_info(&vec!['(', 'n', ',', 't', '2', 'a', ')'], vec![113], -10, -5, &vec![3, 5, 5])
    } else if i == 31 {
        build_info(&vec!['(', 'n', ',', 'd', '2', 'a', ')'], vec![114], -9, -5, &vec![2, 5, 5])
    } else if i == 32 {
        build_info(&vec!['(', 'n', ',', 'p', 'd', ')'], vec![115], -2, -2, &vec![1, 2])
    } else if i == 33 {
        build_info(&vec!['(', 'n', ',', 'p', 't', ')'], vec![116], -3, -2, &vec![1, 3])
    } else if i == 34 {
        build_info(&vec!['(', 'n', ',', 'd', 'a', ')'], vec![117], -5, -3, &vec![2, 5])
    } else if i == 35 {
        build_info(&vec!['(', 'n', ',', '5', 'n', ')'], vec![152], -4, 0, &Vec::new())
    } else if i == 36 {
        build_info(&vec!['(', 'n', ',', '6', 'n', ')'], vec![153], -5, 0, &Vec::new())
    } else if i == 37 {
        build_info(&vec!['(', 'n', ',', '2', 'n', 't', ')'], vec![154], -4, -1, &vec![3])
    } else if i == 38 {
        build_info(&vec!['(', 'n', ',', 't', 'a', ')'], vec![155], -6, -3, &vec![3, 5])
    } else if i == 39 {
        build_info(&vec!['(', 'n', ',', '4', 'n', 'p', ')'], vec![156], -4, -1, &vec![1])
    } else if i == 40 {
        build_info(&vec!['(', 'n', ',', '3', 'n', 'd', ')'], vec![157], -4, -1, &vec![2])
    } else {
        build_info(&vec!['(', 'n', ',', 'n', 'd', 'a', ')'], vec![158], -6, -3, &vec![2, 5])
    }
}

/// The transmutation reactions numbered 42 to 55, built.
fn reaction_entries_from_42(i: usize) -> (r: ReactionInfo)
    requires
        42 <= i < 56,
    ensures
        info_matches(r, reaction_entry(i as int)),
{
    if i == 42 {
        build_info(&vec!['(', 'n', ',', '2', 'n', 'p', 'a', ')'], vec![159], -6, -3, &vec![1, 5])
    } else if i == 43 {
        build_info(&vec!['(', 'n', ',', '7', 'n', ')'], vec![160], -6, 0, &Vec::new())
    } else if i == 44 {
        build_info(&vec!['(', 'n', ',', '8', 'n', ')'], vec![161], -7, 0, &Vec::new())
    } else if i == 45 {
        build_info(&vec!['(', 'n', ',', '5', 'n', 'p', ')'], vec![162], -5, -1, &vec![1])
    } else if i == 46 {
        build_info(&vec!['(', 'n', ',', '6', 'n', 'p', ')'], vec![163], -6, -1, &vec![1])
    } else if i == 47 {
        build_info(&vec!['(', 'n', ',', '7', 'n', 'p', ')'], vec![164], -7, -1, &vec![1])
    } else if i == 48 {
        build_info(&vec!['(', 'n', ',', '4', 'n', 'a', ')'], vec![165], -7, -2, &vec![5])
    } else if i == 49 {
        build_info(&vec!['(', 'n', ',', '5', 'n', 'a', ')'], vec![166], -8, -2, &vec![5])
    } else if i == 50 {
        build_info(&vec!['(', 'n', ',', '6', 'n', 'a', ')'], vec![167], -9, -2, &vec![5])
    } else if i == 51 {
        build_info(&vec!['(', 'n', ',', '7', 'n', 'a', ')'], vec![168], -10, -2, &vec![5])
    } else if i == 52 {
        build_info(&vec!['(', 'n', ',', '4', 'n', 'd', ')'], vec![169], -5, -1, &vec![2])
    } else if i == 53 {
        build_info(&vec!['(', 'n', ',', '5', 'n', 'd', ')'], vec![170], -6, -1, &vec![2])
    } else if i == 54 {
        build_info(&vec!['(', 'n', ',', '6', 'n', 'd', ')'], vec![171], -7, -1, &vec![2])
    } else {
        build_info(&vec!['(', 'n', ',', '3', 'n', 't', ')'], vec![172], -5, -1, &vec![3])
    }
}

/// The transmutation reactions numbered 56 to 69, built.
fn reaction_entries_from_56(i: usize) -> (r: ReactionInfo)
    requires
        56 <= i < 70,
    ensures
        info_matches(r, reaction_entry(i as int)),
{
    if i == 56 {
        build_info(&vec!['(', 'n', ',', '4', 'n', 't', ')'], vec![173], -6, -1, &vec![3])
    } else if i == 57 {
        build_info(&vec!['(', 'n', ',', '5', 'n', 't', ')'], vec![174], -7, -1, &vec![3])
    } else if i == 58 {
        build_info(&vec!['(', 'n', ',', '6', 'n', 't', ')'], vec![175], -8, -1, &vec![3])
    } else if i == 59 {
        build_info(&vec!['(', 'n', ',', '2', 'n', '3', 'H', 'e', ')'], vec![176], -4, -2, &vec![4])
    } else if i == 60 {
        build_info(&vec!['(', 'n', ',', '3', 'n', '3', 'H', 'e', ')'], vec![177], -5, -2, &vec![4])
    } else if i == 61 {
        build_info(&vec!['(', 'n', ',', '4', 'n', '3', 'H', 'e', ')'], vec![178], -6, -2, &vec![4])
    } else if i == 62 {
        build_info(&vec!['(', 'n', ',', '3', 'n', '2', 'p', ')'], vec![179], -4, -2, &vec![1, 1])
    } else if i == 63 {
        build_info(&vec!['(', 'n', ',', '3', 'n', '2', 'a', ')'], vec![180], -10, -4, &vec![5, 5])
    } else if i == 64 {
        build_info(&vec!['(', 'n', ',', '3', 'n', 'p', 'a', ')'], vec![181], -7, -3, &vec![1, 5])
    } else if i == 65 {
        build_info(&vec!['(', 'n', ',', 'd', 't', ')'], vec![182], -4, -2, &vec![2, 3])
    } else if i == 66 {
        build_info(&vec!['(', 'n', ',', 'n', 'p', 'd', ')'], vec![183], -3, -2, &vec![1, 2])
    } else if i == 67 {
        build_info(&vec!['(', 'n', ',', 'n', 'p', 't', ')'], vec![184], -4, -2, &vec![1, 3])
    } else if i == 68 {
        build_info(&vec!['(', 'n', ',', 'n', 'd', 't', ')'], vec![185], -5, -2, &vec![2, 3])
    } else {
        build_info(&vec!['(', 'n', ',', 'n', 'p', '3', 'H', 'e', ')'], vec![186], -4, -3, &vec![1, 4])
    }
}

/// The transmutation reactions numbered 70 to 83, built.
fn reaction_entries_from_70(i: usize) -> (r: ReactionInfo)
    requires
        70 <= i < 84,
    ensures
        info_matches(r, reaction_entry(i as int)),
{
    if i == 70 {
        build_info(&vec!['(', 'n', ',', 'n', 'd', '3', 'H', 'e', ')'], vec![187], -5, -3, &vec![2, 4])
    } else if i == 71 {
        build_info(&vec!['(', 'n', ',', 'n', 't', '3', 'H', 'e', ')'], vec![188], -6, -3, &vec![3, 4])
    } else if i == 72 {
        build_info(&vec!['(', 'n', ',', 'n', 't', 'a', ')'], vec![189], -7, -3, &vec![3, 5])
    } else if i == 73 {
        build_info(&vec!['(', 'n', ',', '2', 'n', '2', 'p', ')'], vec![190], -3, -2, &vec![1, 1])
    } else if i == 74 {
        build_info(&vec!['(', 'n', ',', 'p', '3', 'H', 'e', ')'], vec![191], -4, -3, &vec![1, 4])
    } else if i == 75 {
        build_info(&vec!['(', 'n', ',', 'd', '3', 'H', 'e', ')'], vec![192], -5, -3, &vec![2, 4])
    } else if i == 76 {
        build_info(&vec!['(', 'n', ',', '3', 'H', 'e', 'a', ')'], vec![193], -6, -4, &vec![4, 5])
    } else if i == 77 {
        build_info(&vec!['(', 'n', ',', '4', 'n', '2', 'p', ')'], vec![194], -5, -2, &vec![1, 1])
    } else if i == 78 {
        build_info(&vec!['(', 'n', ',', '4', 'n', '2', 'a', ')'], vec![195], -11, -4, &vec![5, 5])
    } else if i == 79 {
        build_info(&vec!['(', 'n', ',', '4', 'n', 'p', 'a', ')'], vec![196], -8, -3, &vec![1, 5])
    } else if i == 80 {
        build_info(&vec!['(', 'n', ',', '3', 'p', ')'], vec![197], -2, -3, &vec![1, 1, 1])
    } else if i == 81 {
        build_info(&vec!['(', 'n', ',', 'n', '3', 'p', ')'], vec![198], -3, -3, &vec![1, 1, 1])
    } else if i == 82 {
        build_info(&vec!['(', 'n', ',', '3', 'n', '2', 'p', 'a', ')'], vec![199], -8, -4, &vec![1, 1, 5])
    } else {
        build_info(&vec!['(', 'n', ',', '5', 'n', '2', 'p', ')'], vec![200], -6, -2, &vec![1, 1])
    }
}

/// Every transmutation reaction a chain can follow, in the table's order.
pub fn reactions() -> (r: Vec<ReactionInfo>)
    ensures
        r@.len() == 84,
        forall|i: int| 0 <= i < 84 ==> info_matches(#[trigger] r@[i], reaction_entry(i)),
{
    let mut r: Vec<ReactionInfo> = Vec::new();
    let mut i: usize = 0;
    while i < 84
        invariant
            i <= 84,
            r@.len() == i,
            forall|k: int| 0 <= k < i ==> info_matches(#[trigger] r@[k], reaction_entry(k)),
        decreases 84 - i,
    {
        r.push(reaction_entry_exec(i));
        i = i + 1;
    }
    r
}

/// The first reaction from the `i`-th on whose name is `s`.
pub open spec fn find_reaction(s: Seq<char>, i: int) -> Option<int>
    decreases 84 - i,
{
    if i < 0 || i >= 84 {
        None
    } else if reaction_entry(i).0 == s {
        Some(i)
    } else {
        find_reaction(s, i + 1)
    }
}

/// Look a reaction up by name.
pub fn reaction_info(name: &str) -> (r: Option<ReactionInfo>)
    ensures
        match find_reaction(name@, 0) {
            Some(i) => r matches Some(info) && info_matches(info, reaction_entry(i)),
            None => r is None,
        },
{
    let v = chars_of(name);
    let mut i: usize = 0;
    while i < 84
        invariant
            i <= 84,
            v@ == name@,
            find_reaction(name@, 0) == find_reaction(name@, i as int),
        decreases 84 - i,
    {
        let info = reaction_entry_exec(i);
        let n = chars_of(info.name.as_str());
        if chars_eq(&n, &v) {
            return Some(info);
        }
        i = i + 1;
    }
    None
}

/// What a chain needs of one nuclide's decay data: its name, whether it is
/// stable, and a key that orders half-lives. The key is the half-life's bit
/// pattern where the half-life is above zero, and zero otherwise, so that it
/// orders half-lives as the numbers themselves are ordered.
#[derive(Debug, Clone, PartialEq, Eq)]
pub struct DecaySummary {
    pub name: String,
    pub stable: bool,
    pub half_life_key: u64,
}

/// The decay data as `(name, stable, half-life key)`, in the order given.
pub open spec fn decay_view(d: Seq<DecaySummary>) -> Seq<(Seq<char>, bool, u64)> {
    Seq::new(d.len(), |i: int| (d[i].name@, d[i].stable, d[i].half_life_key))
}

/// Whether the decay data comes in strictly ascending order of name, as a
/// map keyed by name keeps it: each name once.
pub open spec fn names_ascending(d: Seq<(Seq<char>, bool, u64)>) -> bool {
    forall|i: int, j: int| 0 <= i < j < d.len() ==> chars_lt(#[trigger] d[i].0, #[trigger] d[j].0)
}

/// Whether each MT occurs once, as in a map keyed by MT.
pub open spec fn mts_distinct(v: Seq<(i32, Seq<char>)>) -> bool {
    forall|i: int, j: int| 0 <= i < j < v.len() ==> #[trigger] v[i].0 != #[trigger] v[j].0
}

/// Whether the decay data holds a nuclide of that name.
pub open spec fn has_name(d: Seq<(Seq<char>, bool, u64)>, name: Seq<char>) -> bool {
    exists|i: int| 0 <= i < d.len() && (#[trigger] d[i]).0 == name
}

/// Whether a GNDS name is an isotope of the element with this symbol, and
/// its mass: the symbol, a run of digits that fits an `i64`, and nothing
/// after or a metastable suffix starting `_m`.
pub open spec fn same_element_spec(name: Seq<char>, symbol: Seq<char>) -> Option<(int, bool)> {
    if !(symbol.len() <= name.len() && name.take(symbol.len() as int) == symbol) {
        None
    } else {
        let rest = name.skip(symbol.len() as int);
        let d = digits_prefix(rest, 0);
        let tail = rest.skip(d);
        if d == 0 {
            None
        } else if tail.len() > 0 && !(tail.len() >= 2 && tail[0] == '_' && tail[1] == 'm') {
            None
        } else if digits_value(rest.take(d)) > i64::MAX {
            None
        } else {
            Some((digits_value(rest.take(d)), tail.len() > 0))
        }
    }
}

/// The end of the run of digits that starts at `i`.
pub open spec fn digits_prefix(s: Seq<char>, i: int) -> int
    decreases s.len() - i,
{
    if 0 <= i < s.len() && is_digit(s[i]) {
        digits_prefix(s, i + 1)
    } else {
        i
    }
}

proof fn lemma_digits_prefix(s: Seq<char>, i: int)
    requires
        0 <= i <= s.len(),
    ensures
        i <= digits_prefix(s, i) <= s.len(),
        forall|k: int| i <= k < digits_prefix(s, i) ==> is_digit(#[trigger] s[k]),
    decreases s.len() - i,
{
    if i < s.len() && is_digit(s[i]) {
        lemma_digits_prefix(s, i + 1);
    }
}

/// Whether a GNDS name is an isotope of the given element, and its mass.
pub fn same_element(name: &str, symbol: &str) -> (r: Option<(i64, bool)>)
    ensures
        match same_element_spec(name@, symbol@) {
            Some((m, meta)) => r matches Some((x, y)) && x as int == m && y == meta,
            None => r is None,
        },
{
    let v = chars_of(name);
    let s = chars_of(symbol);
    if s.len() > v.len() {
        return None;
    }
    let head = slice_chars(&v, 0, s.len());
    if !chars_eq(&head, &s) {
        return None;
    }
    let ghost rest = v@.skip(s.len() as int);
    let mut i: usize = s.len();
    while i < v.len() && '0' <= v[i] && v[i] <= '9'
        invariant
            s.len() <= i <= v.len(),
            rest == v@.skip(s.len() as int),
            digits_prefix(rest, 0) == digits_prefix(rest, i - s.len()),
        decreases v.len() - i,
    {
        assert(rest[i - s.len()] == v@[i as int]);
        i = i + 1;
    }
    proof {
        lemma_digits_prefix(rest, 0);
        assert(digits_prefix(rest, i - s.len()) == i - s.len());
        assert(rest.take(i - s.len()) == v@.subrange(s.len() as int, i as int));
        assert(rest.skip(i - s.len()) == v@.skip(i as int));
        assert(all_digits(rest.take(i - s.len())));
    }
    if i == s.len() {
        return None;
    }
    let meta = i < v.len();
    if meta && !(v.len() - i >= 2 && v[i] == '_' && v[i + 1] == 'm') {
        return None;
    }
    match digits_upto(&v, s.len(), i, 0x7fff_ffff_ffff_ffff) {
        Some(m) => Some((m as i64, meta)),
        None => None,
    }
}

/// The mass of the longest-lived isotope of an element among the decay data
/// from the `i`-th entry on, where `mass` is the one found so far and `best`
/// its half-life key. A stable isotope ends the search.
pub open spec fn longest_lived(
    d: Seq<(Seq<char>, bool, u64)>,
    sym: Seq<char>,
    i: int,
    best: u64,
    mass: int,
) -> int
    decreases d.len() - i,
{
    if i < 0 || i >= d.len() {
        mass
    } else {
        match same_element_spec(d[i].0, sym) {
            None => longest_lived(d, sym, i + 1, best, mass),
            Some((m, _)) => if d[i].1 {
                m
            } else if d[i].2 > best {
                longest_lived(d, sym, i + 1, d[i].2, m)
            } else {
                longest_lived(d, sym, i + 1, best, mass)
            },
        }
    }
}

/// How far a walk towards stability has left to go.
pub open spec fn walk_measure(z: int, a: int, beta_minus: bool) -> int {
    a * 300 + if beta_minus {
        200 - z
    } else {
        z
    }
}

/// A walk towards stability from `(z, a)`, named `product`: down by alpha
/// decay above Z=98, and by beta otherwise, in the direction `beta_minus`
/// says, until a nuclide the decay data holds.
pub open spec fn walk(
    d: Seq<(Seq<char>, bool, u64)>,
    z: int,
    a: int,
    beta_minus: bool,
    product: Seq<char>,
) -> Option<Seq<char>>
    decreases walk_measure(z, a, beta_minus),
    when 1 <= z <= 118 && a >= 1
{
    if has_name(d, product) {
        Some(product)
    } else {
        let z2 = if z > 98 {
            z - 2
        } else if beta_minus {
            z + 1
        } else {
            z - 1
        };
        let a2 = if z > 98 {
            a - 4
        } else {
            a
        };
        if z2 < 1 || a2 < 1 {
            None
        } else {
            walk(d, z2, a2, beta_minus, symbol(z2) + decimal(a2 as nat))
        }
    }
}

/// The stand-in for a product with no decay data.
pub open spec fn replace_missing_spec(product: Seq<char>, d: Seq<(Seq<char>, bool, u64)>) -> Option<
    Seq<char>,
> {
    match zam_spec(product) {
        Err(_) => None,
        Ok((z, a, state)) => if z == 0 {
            None
        } else {
            let start = if state > 0 {
                symbol(z) + decimal(a as nat)
            } else {
                product
            };
            let beta_minus = longest_lived(d, symbol(z), 0, 0, a) < a;
            if a >= 1 {
                walk(d, z, a, beta_minus, start)
            } else {
                if has_name(d, start) {
                    Some(start)
                } else {
                    None
                }
            }
        },
    }
}

/// Whether the decay data holds a nuclide of that name.
fn contains_name(d: &Vec<DecaySummary>, name: &str) -> (r: bool)
    ensures
        r == has_name(decay_view(d@), name@),
{
    let mut i: usize = 0;
    while i < d.len()
        invariant
            i <= d.len(),
            forall|k: int| 0 <= k < i ==> (#[trigger] decay_view(d@)[k]).0 != name@,
        decreases d.len() - i,
    {
        if str_eq(d[i].name.as_str(), name) {
            assert(decay_view(d@)[i as int].0 == name@);
            return true;
        }
        i = i + 1;
    }
    false
}

/// The mass of the longest-lived isotope of the element with this symbol
/// among the decay data, or `a` where the data holds none. A stable isotope
/// wins outright; otherwise the first of the longest half-lives does.
fn longest_lived_mass(decay_data: &Vec<DecaySummary>, symbol: &String, a: i64) -> (m: i64)
    ensures
        m as int == longest_lived(decay_view(decay_data@), symbol@, 0, 0, a as int),
{
    let ghost d = decay_view(decay_data@);
    let mut best: u64 = 0;
    let mut mass: i64 = a;
    let mut i: usize = 0;
    while i < decay_data.len()
        invariant
            i <= decay_data.len(),
            d == decay_view(decay_data@),
            longest_lived(d, symbol@, 0, 0, a as int) == longest_lived(
                d,
                symbol@,
                i as int,
                best,
                mass as int,
            ),
        decreases decay_data.len() - i,
    {
        assert(d[i as int].0 == decay_data@[i as int].name@);
        assert(d[i as int].1 == decay_data@[i as int].stable);
        assert(d[i as int].2 == decay_data@[i as int].half_life_key);
        match same_element(decay_data[i].name.as_str(), symbol.as_str()) {
            None => {},
            Some((found, _)) => {
                if decay_data[i].stable {
                    return found;
                }
                if decay_data[i].half_life_key > best {
                    mass = found;
                    best = decay_data[i].half_life_key;
                }
            },
        }
        i = i + 1;
    }
    mass
}

/// A stand-in for a product with no decay data.
///
/// Walks towards stability until it reaches a nuclide the library knows: down
/// by alpha decay above Z=98, and by beta otherwise, in whichever direction
/// the element's longest-lived isotope lies. The decay data is given in
/// ascending order of name, as a map keyed by name iterates.
///
/// `None` when there is no stand-in: a bare neutron, which is simply dropped,
/// or a walk that leaves the table of elements without finding one.
pub fn replace_missing(product: &str, decay_data: &Vec<DecaySummary>) -> (r: Option<String>)
    requires
        names_ascending(decay_view(decay_data@)),
    ensures
        match replace_missing_spec(product@, decay_view(decay_data@)) {
            Some(p) => r matches Some(s) && s@ == p,
            None => r is None,
        },
{
    let ghost d = decay_view(decay_data@);
    proof {
        crate::data::lemma_zam_ranges(product@);
    }
    let (z0, a0, state) = match zam(product) {
        Ok(t) => t,
        Err(_) => {
            return None;
        },
    };
    let symbol = match atomic_symbol(z0) {
        Some(s) => s,
        None => {
            return None;
        },
    };
    // A neutron is not replaced by anything.
    if z0 == 0 {
        return None;
    }
    let mut a: i64 = a0 as i64;
    let mut z: i64 = z0 as i64;
    // The ground state, where the product was metastable.
    let mut current = if state > 0 {
        let mut p = symbol.clone();
        push_decimal(&mut p, a0 as u64);
        p
    } else {
        product.to_owned()
    };
    // The longest-lived isotope of this element says which way stability lies.
    let mass_longest_lived = longest_lived_mass(decay_data, &symbol, a);
    let beta_minus = mass_longest_lived < a;
    if a < 1 {
        if contains_name(decay_data, current.as_str()) {
            return Some(current);
        }
        return None;
    }
    while !contains_name(decay_data, current.as_str())
        invariant
            1 <= z <= 118,
            a >= 1,
            a <= a0,
            d == decay_view(decay_data@),
            replace_missing_spec(product@, d) == walk(d, z as int, a as int, beta_minus, current@),
        decreases walk_measure(z as int, a as int, beta_minus),
    {
        if z > 98 {
            z = z - 2;
            a = a - 4;
        } else if beta_minus {
            z = z + 1;
        } else {
            z = z - 1;
        }
        if z < 1 || a < 1 {
            return None;
        }
        let s = match atomic_symbol(z as u32) {
            Some(s) => s,
            None => {
                return None;
            },
        };
        let mut p = s;
        push_decimal(&mut p, a as u64);
        current = p;
    }
    Some(current)
}

/// The changes in mass and atomic number of every transmutation reaction are
/// small.
proof fn lemma_reaction_deltas_small(i: int)
    requires
        0 <= i < 84,
    ensures
        -24 <= reaction_entry(i).2 <= 1,
        -12 <= reaction_entry(i).3 <= 1,
{
}

/// The MTs whose presence makes a nuclide fissionable in a chain.
pub open spec fn fission_mts() -> Seq<i32> {
    seq![18i32, 19, 20, 21, 38]
}

/// What the neutron evaluation of a nuclide gives for each MF=3 section, as
/// `(MT, text of its QI field)`.
pub open spec fn available_view(v: Seq<(i32, String)>) -> Seq<(i32, Seq<char>)> {
    Seq::new(v.len(), |i: int| (v[i].0, v[i].1@))
}

/// The QI text of MT `mt`: that of its last entry, as a map keyed by MT
/// keeps the last value inserted.
pub open spec fn q_text(available: Seq<(i32, Seq<char>)>, mt: i32) -> Option<Seq<char>>
    decreases available.len(),
{
    if available.len() == 0 {
        None
    } else if available.last().0 == mt {
        Some(available.last().1)
    } else {
        q_text(available.drop_last(), mt)
    }
}

/// The QI text of the first MT of `mts` that the evaluation has.
pub open spec fn first_q(available: Seq<(i32, Seq<char>)>, mts: Seq<i32>) -> Option<Seq<char>>
    decreases mts.len(),
{
    if mts.len() == 0 {
        None
    } else {
        match q_text(available, mts[0]) {
            Some(q) => Some(q),
            None => first_q(available, mts.drop_first()),
        }
    }
}

/// The nuclide a reaction leaves from a parent of atomic number `z` and mass
/// number `a`: the symbol of its atomic number, `?` past the table, and its
/// mass number; or the stand-in for it where the decay data lacks it.
pub open spec fn daughter_of(z: int, a: int, i: int, d: Seq<(Seq<char>, bool, u64)>) -> Option<Seq<char>> {
    let name = symbol_or_unknown(z + reaction_entry(i).3) + signed_decimal(a + reaction_entry(i).2);
    if has_name(d, name) {
        Some(name)
    } else {
        replace_missing_spec(name, d)
    }
}

/// A reaction path of a chain nuclide as `(kind, target, Q text)`.
pub type PathView = (Seq<char>, Option<Seq<char>>, Option<Seq<char>>);

/// The transmutation paths the reactions named in `names` give a parent of
/// atomic number `z` and mass number `a`: one for each known reaction whose
/// MTs the evaluation has some of, in the order named, with the QI text of
/// the first of its MTs present.
pub open spec fn transmutations(
    z: int,
    a: int,
    available: Seq<(i32, Seq<char>)>,
    names: Seq<Seq<char>>,
    d: Seq<(Seq<char>, bool, u64)>,
) -> Seq<PathView>
    decreases names.len(),
{
    if names.len() == 0 {
        Seq::empty()
    } else {
        let before = transmutations(z, a, available, names.drop_last(), d);
        match find_reaction(names.last(), 0) {
            None => before,
            Some(i) => match first_q(available, reaction_entry(i).1) {
                None => before,
                Some(q) => before.push((names.last(), daughter_of(z, a, i, d), Some(q))),
            },
        }
    }
}

/// Every path of a chain nuclide: its transmutations, then fission where the
/// evaluation has a fission MT, with no single target and the QI text of
/// MT=18 where there is one.
pub open spec fn paths_spec(
    z: int,
    a: int,
    available: Seq<(i32, Seq<char>)>,
    names: Seq<Seq<char>>,
    d: Seq<(Seq<char>, bool, u64)>,
) -> Seq<PathView> {
    let t = transmutations(z, a, available, names, d);
    if first_q(available, fission_mts()) is Some {
        t.push((seq!['f', 'i', 's', 's', 'i', 'o', 'n'], None, q_text(available, 18)))
    } else {
        t
    }
}

/// A reaction path of a chain nuclide, with its Q value as the text of the
/// evaluation's QI field; `None` where the evaluation gives none, which the
/// chain takes as zero. Its branching ratio is always one.
#[derive(Debug, Clone, PartialEq, Eq)]
pub struct TransmutationPath {
    /// The reaction's name, or `"fission"`.
    pub kind: String,
    /// The nuclide left behind; `None` for fission, which has no single one,
    /// and where no stand-in exists.
    pub target: Option<String>,
    pub q_value: Option<String>,
}

/// A path as `(kind, target, Q text)`.
pub open spec fn path_view(p: TransmutationPath) -> PathView {
    (
        p.kind@,
        match p.target {
            Some(t) => Some(t@),
            None => None,
        },
        match p.q_value {
            Some(q) => Some(q@),
            None => None,
        },
    )
}

/// The QI text of MT `mt`.
fn q_lookup(available: &Vec<(i32, String)>, mt: i32) -> (r: Option<String>)
    ensures
        match q_text(available_view(available@), mt) {
            Some(q) => r matches Some(s) && s@ == q,
            None => r is None,
        },
{
    let ghost v = available_view(available@);
    let mut found: Option<String> = None;
    let mut k: usize = 0;
    while k < available.len()
        invariant
            k <= available.len(),
            v == available_view(available@),
            match q_text(v.take(k as int), mt) {
                Some(q) => found matches Some(s) && s@ == q,
                None => found is None,
            },
        decreases available.len() - k,
    {
        assert(v.take(k + 1).drop_last() =~= v.take(k as int));
        if available[k].0 == mt {
            found = Some(available[k].1.clone());
        }
        k = k + 1;
    }
    assert(v.take(available.len() as int) =~= v);
    found
}

/// The QI text of the first MT of `mts` that the evaluation has.
fn first_q_exec(available: &Vec<(i32, String)>, mts: &Vec<i32>) -> (r: Option<String>)
    ensures
        match first_q(available_view(available@), mts@) {
            Some(q) => r matches Some(s) && s@ == q,
            None => r is None,
        },
{
    let ghost v = available_view(available@);
    assert(mts@.subrange(0, mts@.len() as int) =~= mts@);
    let mut k: usize = 0;
    while k < mts.len()
        invariant
            k <= mts.len(),
            v == available_view(available@),
            first_q(v, mts@) == first_q(v, mts@.subrange(k as int, mts@.len() as int)),
        decreases mts.len() - k,
    {
        let ghost rest = mts@.subrange(k as int, mts@.len() as int);
        assert(rest.drop_first() =~= mts@.subrange(k + 1, mts@.len() as int));
        assert(rest[0] == mts@[k as int]);
        match q_lookup(available, mts[k]) {
            Some(q) => {
                return Some(q);
            },
            None => {},
        }
        k = k + 1;
    }
    None
}

/// The nuclide the `i`-th reaction leaves from a parent of atomic number
/// `z` and mass number `a`, or its stand-in.
fn daughter(z: i32, a: i32, info: &ReactionInfo, Ghost(i): Ghost<int>, decay_data: &Vec<DecaySummary>) -> (r:
    Option<String>)
    requires
        0 <= i < 84,
        info_matches(*info, reaction_entry(i)),
        names_ascending(decay_view(decay_data@)),
    ensures
        match daughter_of(z as int, a as int, i, decay_view(decay_data@)) {
            Some(n) => r matches Some(s) && s@ == n,
            None => r is None,
        },
{
    proof {
        lemma_reaction_deltas_small(i);
    }
    let zd: i64 = z as i64 + info.delta_z;
    let ad: i64 = a as i64 + info.delta_a;
    let mut name = if 0 <= zd && zd <= 118 {
        match atomic_symbol(zd as u32) {
            Some(s) => s,
            None => String::new(),
        }
    } else {
        let mut q = String::new();
        string_push(&mut q, '?');
        q
    };
    assert(name@ == symbol_or_unknown(zd as int));
    push_signed(&mut name, ad);
    if contains_name(decay_data, name.as_str()) {
        Some(name)
    } else {
        replace_missing(name.as_str(), decay_data)
    }
}

/// The reaction paths of a chain nuclide of atomic number `z` and mass
/// number `a`, from the MF=3 sections its neutron evaluation has (`(MT,
/// QI text)`, each MT once, empty where there is no evaluation), for the reactions named
/// in `names`: one per known reaction of which some MT is present, then
/// fission where a fission MT is present. The flag says whether the nuclide
/// is fissionable. Targets missing from the decay data are replaced by
/// their stand-ins.
pub fn reaction_paths(
    z: i32,
    a: i32,
    available: &Vec<(i32, String)>,
    names: &Vec<String>,
    decay_data: &Vec<DecaySummary>,
) -> (r: (Vec<TransmutationPath>, bool))
    requires
        mts_distinct(available_view(available@)),
        names_ascending(decay_view(decay_data@)),
    ensures
        r.0@.map_values(|p: TransmutationPath| path_view(p)) == paths_spec(
            z as int,
            a as int,
            available_view(available@),
            names_view(names@),
            decay_view(decay_data@),
        ),
        r.1 == first_q(available_view(available@), fission_mts()) is Some,
{
    let ghost v = available_view(available@);
    let ghost d = decay_view(decay_data@);
    let ghost all = names_view(names@);
    let mut paths: Vec<TransmutationPath> = Vec::new();
    let mut k: usize = 0;
    while k < names.len()
        invariant
            k <= names.len(),
            v == available_view(available@),
            d == decay_view(decay_data@),
            names_ascending(d),
            all == names_view(names@),
            paths@.map_values(|p: TransmutationPath| path_view(p)) == transmutations(
                z as int,
                a as int,
                v,
                all.take(k as int),
                d,
            ),
        decreases names.len() - k,
    {
        assert(all.take(k + 1).drop_last() =~= all.take(k as int));
        assert(all.take(k + 1).last() == names@[k as int]@);
        match reaction_info(names[k].as_str()) {
            None => {},
            Some(info) => {
                let ghost i = find_reaction(names@[k as int]@, 0)->0;
                proof {
                    lemma_find_reaction_range(names@[k as int]@, 0);
                }
                match first_q_exec(available, &info.mts) {
                    None => {},
                    Some(q) => {
                        let target = daughter(z, a, &info, Ghost(i), decay_data);
                        let ghost before = paths@;
                        paths.push(TransmutationPath { kind: names[k].clone(), target, q_value: Some(q) });
                        assert(paths@.map_values(|p: TransmutationPath| path_view(p)) =~= before.map_values(
                            |p: TransmutationPath| path_view(p),
                        ).push(path_view(paths@.last())));
                    },
                }
            },
        }
        k = k + 1;
    }
    assert(all.take(names.len() as int) =~= all);
    let fission: Vec<i32> = vec![18, 19, 20, 21, 38];
    assert(fission@ =~= fission_mts());
    let fissionable = match first_q_exec(available, &fission) {
        Some(_) => true,
        None => false,
    };
    if fissionable {
        let q = q_lookup(available, 18);
        let ghost before = paths@;
        paths.push(TransmutationPath { kind: "fission".to_string(), target: None, q_value: q });
        proof {
            reveal_strlit("fission");
        }
        assert(paths@.last().kind@ == seq!['f', 'i', 's', 's', 'i', 'o', 'n']);
        assert(path_view(paths@.last()) == (seq!['f', 'i', 's', 's', 'i', 'o', 'n'], None::<Seq<char>>, q_text(v, 18)));
        assert(paths@.map_values(|p: TransmutationPath| path_view(p)) =~= before.map_values(
            |p: TransmutationPath| path_view(p),
        ).push(path_view(paths@.last())));
    }
    (paths, fissionable)
}

/// A walk towards stability ends only at a nuclide the decay data holds.
proof fn lemma_walk_ends_known(d: Seq<(Seq<char>, bool, u64)>, z: int, a: int, beta_minus: bool, product: Seq<char>)
    requires
        1 <= z <= 118,
        a >= 1,
    ensures
        walk(d, z, a, beta_minus, product) matches Some(s) ==> has_name(d, s),
    decreases walk_measure(z, a, beta_minus),
{
    if !has_name(d, product) {
        let z2 = if z > 98 {
            z - 2
        } else if beta_minus {
            z + 1
        } else {
            z - 1
        };
        let a2 = if z > 98 {
            a - 4
        } else {
            a
        };
        if !(z2 < 1 || a2 < 1) {
            lemma_walk_ends_known(d, z2, a2, beta_minus, symbol(z2) + decimal(a2 as nat));
        }
    }
}

/// A stand-in is always a nuclide the decay data holds.
pub proof fn lemma_stand_in_is_known(product: Seq<char>, d: Seq<(Seq<char>, bool, u64)>)
    ensures
        replace_missing_spec(product, d) matches Some(s) ==> has_name(d, s),
{
    crate::data::lemma_zam_ranges(product);
    if let Ok((z, a, state)) = zam_spec(product) {
        if z != 0 && a >= 1 {
            let start = if state > 0 {
                symbol(z) + decimal(a as nat)
            } else {
                product
            };
            let beta_minus = longest_lived(d, symbol(z), 0, 0, a) < a;
            lemma_walk_ends_known(d, z, a, beta_minus, start);
        }
    }
}

/// The transmutations' targets are nuclides the decay data holds.
proof fn lemma_transmutation_targets_known(
    z: int,
    a: int,
    available: Seq<(i32, Seq<char>)>,
    names: Seq<Seq<char>>,
    d: Seq<(Seq<char>, bool, u64)>,
)
    ensures
        forall|k: int|
            0 <= k < transmutations(z, a, available, names, d).len() ==> match (
            #[trigger] transmutations(z, a, available, names, d)[k]).1 {
                Some(t) => has_name(d, t),
                None => true,
            },
    decreases names.len(),
{
    if names.len() > 0 {
        lemma_transmutation_targets_known(z, a, available, names.drop_last(), d);
        if let Some(i) = find_reaction(names.last(), 0) {
            let name = symbol_or_unknown(z + reaction_entry(i).3) + signed_decimal(a + reaction_entry(i).2);
            lemma_stand_in_is_known(name, d);
        }
    }
}

/// Every target of a chain nuclide's reaction paths is a nuclide the decay
/// data holds: a daughter the decay data lacks is replaced by a stand-in
/// that it holds, and fission has no single target.
pub proof fn lemma_reaction_targets_are_chain_nuclides(
    z: int,
    a: int,
    available: Seq<(i32, Seq<char>)>,
    names: Seq<Seq<char>>,
    d: Seq<(Seq<char>, bool, u64)>,
)
    ensures
        forall|k: int|
            0 <= k < paths_spec(z, a, available, names, d).len() ==> match (
            #[trigger] paths_spec(z, a, available, names, d)[k]).1 {
                Some(t) => has_name(d, t),
                None => true,
            },
{
    lemma_transmutation_targets_known(z, a, available, names, d);
}

/// A reaction found by name is one of the table's.
proof fn lemma_find_reaction_range(s: Seq<char>, i: int)
    requires
        0 <= i,
    ensures
        find_reaction(s, i) matches Some(j) ==> i <= j < 84 && reaction_entry(j).0 == s,
    decreases 84 - i,
{
    if i < 84 && reaction_entry(i).0 != s {
        lemma_find_reaction_range(s, i + 1);
    }
}

/// The names of the nuclides that have fission yields, as sequences.
pub open spec fn names_view(v: Seq<String>) -> Seq<Seq<char>> {
    Seq::new(v.len(), |i: int| v[i]@)
}

/// Whether a name is among the names.
fn contains_str(v: &Vec<String>, name: &String) -> (r: bool)
    ensures
        r == names_view(v@).contains(name@),
{
    let mut i: usize = 0;
    while i < v.len()
        invariant
            i <= v.len(),
            forall|k: int| 0 <= k < i ==> (#[trigger] names_view(v@)[k]) != name@,
        decreases v.len() - i,
    {
        if str_eq(v[i].as_str(), name.as_str()) {
            assert(names_view(v@)[i as int] == name@);
            return true;
        }
        i = i + 1;
    }
    false
}

/// The isotone of `(z, a)` one `step` along, as a GNDS name: both numbers
/// move by the step, and are taken as `u32`s.
pub open spec fn isotone_name(z: int, a: int) -> Seq<char> {
    gnds_spec((z as u32) as int, (a as u32) as int, 0)
}

/// A walk along the isotones of `(z, a)`, named `name`, in the direction of
/// `step`: it goes on while the decay data holds the current name, and stops
/// at the first isotone that has fission yields. At most `fuel` steps.
pub open spec fn isotone_walk(
    fpy: Seq<Seq<char>>,
    d: Seq<(Seq<char>, bool, u64)>,
    z: int,
    a: int,
    step: int,
    name: Seq<char>,
    fuel: nat,
) -> Option<Seq<char>>
    decreases fuel,
{
    if fuel == 0 || !has_name(d, name) {
        None
    } else if z + step < 0 {
        None
    } else if fpy.contains(isotone_name(z + step, a + step)) {
        Some(isotone_name(z + step, a + step))
    } else {
        isotone_walk(fpy, d, z + step, a + step, step, isotone_name(z + step, a + step), (fuel - 1) as nat)
    }
}

/// `U235`, whose yields every library has.
pub open spec fn fallback_actinide() -> Seq<char> {
    seq!['U', '2', '3', '5']
}

/// The stand-in for an actinide with no fission yields: its metastable state
/// where the actinide is a ground state, then the isotones upwards, then
/// downwards, then `U235`. Each isotone walk takes at most as many steps as
/// the decay data has entries: it moves to a new name at each step and goes
/// on only from names the data holds.
pub open spec fn replace_missing_fpy_spec(
    actinide: Seq<char>,
    fpy: Seq<Seq<char>>,
    d: Seq<(Seq<char>, bool, u64)>,
) -> Seq<char> {
    match zam_spec(actinide) {
        Err(_) => fallback_actinide(),
        Ok((z, a, m)) => if m == 0 && fpy.contains(gnds_spec(z, a, 1)) {
            gnds_spec(z, a, 1)
        } else {
            match isotone_walk(fpy, d, z, a, 1, actinide, d.len()) {
                Some(up) => up,
                None => match isotone_walk(fpy, d, z, a, -1, actinide, d.len()) {
                    Some(down) => down,
                    None => fallback_actinide(),
                },
            }
        },
    }
}

/// The walk of [`isotone_walk`] from `(z, a)` in the direction of `step`.
fn walk_isotones(
    actinide: &str,
    fpy_data: &Vec<String>,
    decay_data: &Vec<DecaySummary>,
    z0: u32,
    a0: u32,
    step: i128,
) -> (r: Option<String>)
    requires
        step == 1 || step == -1,
    ensures
        match isotone_walk(
            names_view(fpy_data@),
            decay_view(decay_data@),
            z0 as int,
            a0 as int,
            step as int,
            actinide@,
            decay_data@.len(),
        ) {
            Some(p) => r matches Some(x) && x@ == p,
            None => r is None,
        },
{
    let ghost fpy = names_view(fpy_data@);
    let ghost d = decay_view(decay_data@);
    let ghost target = isotone_walk(fpy, d, z0 as int, a0 as int, step as int, actinide@, d.len());
    let mut z: i128 = z0 as i128;
    let mut a: i128 = a0 as i128;
    let mut isotone: String = actinide.to_owned();
    let mut taken: usize = 0;
    let n = decay_data.len();
    loop
        invariant
            taken <= n,
            n == decay_data@.len(),
            target == isotone_walk(fpy, d, z0 as int, a0 as int, step as int, actinide@, n as nat),
            fpy == names_view(fpy_data@),
            d == decay_view(decay_data@),
            step == 1 || step == -1,
            z == z0 + step * taken,
            a == a0 + step * taken,
            target == isotone_walk(fpy, d, z as int, a as int, step as int, isotone@, (n - taken) as nat),
        decreases n - taken,
    {
        if taken == n || !contains_name(decay_data, isotone.as_str()) {
            return None;
        }
        z = z + step;
        a = a + step;
        if z < 0 {
            return None;
        }
        let next = gnds_name(z as u32, a as u32, 0);
        if contains_str(fpy_data, &next) {
            return Some(next);
        }
        isotone = next;
        taken = taken + 1;
    }
}

/// A stand-in set of fission yields for an actinide the library has none for.
///
/// Tries the metastable state, then isotones in either direction, and falls
/// back to U235, whose yields every library has. `fpy_data` names the
/// nuclides that have fission yields.
pub fn replace_missing_fpy(
    actinide: &str,
    fpy_data: &Vec<String>,
    decay_data: &Vec<DecaySummary>,
) -> (r: String)
    ensures
        r@ == replace_missing_fpy_spec(actinide@, names_view(fpy_data@), decay_view(decay_data@)),
{
    proof {
        crate::data::lemma_zam_ranges(actinide@);
    }
    let (z, a, m) = match zam(actinide) {
        Ok(t) => t,
        Err(_) => {
            return string_from_chars(&vec!['U', '2', '3', '5']);
        },
    };
    if m == 0 {
        let metastable = gnds_name(z, a, 1);
        if contains_str(fpy_data, &metastable) {
            return metastable;
        }
    }
    match walk_isotones(actinide, fpy_data, decay_data, z, a, 1) {
        Some(up) => {
            return up;
        },
        None => {},
    }
    match walk_isotones(actinide, fpy_data, decay_data, z, a, -1) {
        Some(down) => down,
        None => string_from_chars(&vec!['U', '2', '3', '5']),
    }
}

/// The nucleons a light nuclide carries, by its [`light_nuclide`] number.
pub open spec fn nucleons(code: u8) -> int {
    if code == 1 {
        1
    } else if code == 2 {
        2
    } else if code == 3 || code == 4 {
        3
    } else {
        4
    }
}

/// The nucleons the secondaries of a reaction carry away.
pub open spec fn carried(secondaries: Seq<u8>) -> int
    decreases secondaries.len(),
{
    if secondaries.len() == 0 {
        0
    } else {
        carried(secondaries.drop_last()) + nucleons(secondaries.last())
    }
}

/// Every transmutation reaction conserves nucleons: the change in the mass
/// number plus what the secondaries carry away is at most the incident
/// neutron.
#[verifier::spinoff_prover]
pub proof fn lemma_reactions_conserve_nucleons(i: int)
    requires
        0 <= i < 84,
    ensures
        reaction_entry(i).2 + carried(reaction_entry(i).4) <= 1,
{
    reveal_with_fuel(carried, 4);
}


/// The protons a light nuclide carries, by its [`light_nuclide`] number.
pub open spec fn protons(code: u8) -> int {
    if code <= 3 {
        1
    } else {
        2
    }
}

/// The protons the secondaries of a reaction carry away.
pub open spec fn charged(secondaries: Seq<u8>) -> int
    decreases secondaries.len(),
{
    if secondaries.len() == 0 {
        0
    } else {
        charged(secondaries.drop_last()) + protons(secondaries.last())
    }
}

/// Every transmutation reaction conserves charge: the change in the atomic
/// number plus the protons the secondaries carry away is zero. Each
/// secondary is one of the light nuclides H1, H2, H3, He3 and He4.
#[verifier::spinoff_prover]
pub proof fn lemma_reactions_conserve_charge(i: int)
    requires
        0 <= i < 84,
    ensures
        reaction_entry(i).3 + charged(reaction_entry(i).4) == 0,
        forall|k: int| 0 <= k < reaction_entry(i).4.len() ==> 1 <= #[trigger] reaction_entry(i).4[k] <= 5,
{
    reveal_with_fuel(charged, 4);
}

/// No two transmutation reactions share a name.
#[verifier::spinoff_prover]
#[verifier::rlimit(100)]
pub proof fn lemma_reaction_names_unique(i: int, j: int)
    requires
        0 <= i < j < 84,
    ensures
        reaction_entry(i).0 != reaction_entry(j).0,
{
}

proof fn lemma_find_own_name_from(i: int, k: int)
    requires
        0 <= k <= i < 84,
    ensures
        find_reaction(reaction_entry(i).0, k) == Some(i),
    decreases i - k,
{
    if k < i {
        lemma_reaction_names_unique(k, i);
        lemma_find_own_name_from(i, k + 1);
    }
}

/// Looking a transmutation reaction up by its own name finds that
/// reaction: [`reaction_info`] gives back the entry whose name it was asked.
pub proof fn lemma_reaction_lookup_by_own_name(i: int)
    requires
        0 <= i < 84,
    ensures
        find_reaction(reaction_entry(i).0, 0) == Some(i),
{
    lemma_find_own_name_from(i, 0);
}


/// The GNDS name of the ground state of atomic number `z` and mass number
/// `a`.
pub open spec fn isobar_name(z: int, a: int) -> Seq<char> {
    symbol(z) + decimal(a as nat)
}

/// A walk from `(j, a)` in the direction `beta_minus` gives, towards `k`.
proof fn lemma_walk_to_isobar(d: Seq<(Seq<char>, bool, u64)>, j: int, a: int, beta_minus: bool, k: int)
    requires
        a >= 1,
        1 <= j <= 98,
        1 <= k <= 98,
        beta_minus ==> j <= k,
        !beta_minus ==> k <= j,
        has_name(d, isobar_name(k, a)),
        forall|i: int|
            (if beta_minus {
                j <= i < k
            } else {
                k < i <= j
            }) ==> !has_name(d, #[trigger] isobar_name(i, a)),
    ensures
        walk(d, j, a, beta_minus, isobar_name(j, a)) == Some(isobar_name(k, a)),
    decreases if beta_minus {
        k - j
    } else {
        j - k
    },
{
    if j != k {
        assert(!has_name(d, isobar_name(j, a)));
        let j2 = if beta_minus {
            j + 1
        } else {
            j - 1
        };
        lemma_walk_to_isobar(d, j2, a, beta_minus, k);
    }
}

/// Below Z=99 a stand-in is found by beta decay at a fixed mass number: a
/// product of atomic number `z` from 1 to 98 and mass number `a`, which the
/// decay data lacks (in its ground state, for a metastable product), stands
/// in for by the nearest isobar the data holds, going up in Z where the
/// element's longest-lived isotope is lighter and down otherwise, as long as
/// that isobar has Z at most 98.
pub proof fn lemma_stand_in_is_nearest_isobar(
    product: Seq<char>,
    d: Seq<(Seq<char>, bool, u64)>,
    z: int,
    a: int,
    state: int,
    k: int,
)
    requires
        zam_spec(product) == Ok::<(int, int, int), NameFailure>((z, a, state)),
        1 <= z <= 98,
        a >= 1,
        !has_name(
            d,
            if state > 0 {
                isobar_name(z, a)
            } else {
                product
            },
        ),
        1 <= k <= 98,
        longest_lived(d, symbol(z), 0, 0, a) < a ==> z < k,
        longest_lived(d, symbol(z), 0, 0, a) >= a ==> k < z,
        has_name(d, isobar_name(k, a)),
        forall|i: int| (z < i < k || k < i < z) ==> !has_name(d, #[trigger] isobar_name(i, a)),
    ensures
        replace_missing_spec(product, d) == Some(isobar_name(k, a)),
{
    let beta_minus = longest_lived(d, symbol(z), 0, 0, a) < a;
    let j2 = if beta_minus {
        z + 1
    } else {
        z - 1
    };
    lemma_walk_to_isobar(d, j2, a, beta_minus, k);
}


/// Above Z=98 a stand-in is found by alpha decay: a product of atomic
/// number `z` from 99 to 118 and mass number `a`, which the decay data
/// lacks (in its ground state, for a metastable product), stands in for by
/// the nuclide two protons and four nucleons lighter where the data holds
/// it.
pub proof fn lemma_stand_in_above_98_is_alpha_daughter(
    product: Seq<char>,
    d: Seq<(Seq<char>, bool, u64)>,
    z: int,
    a: int,
    state: int,
)
    requires
        zam_spec(product) == Ok::<(int, int, int), NameFailure>((z, a, state)),
        99 <= z <= 118,
        a >= 5,
        !has_name(
            d,
            if state > 0 {
                isobar_name(z, a)
            } else {
                product
            },
        ),
        has_name(d, isobar_name(z - 2, a - 4)),
    ensures
        replace_missing_spec(product, d) == Some(isobar_name(z - 2, a - 4)),
{
    let beta_minus = longest_lived(d, symbol(z), 0, 0, a) < a;
    assert(walk(d, z - 2, a - 4, beta_minus, symbol(z - 2) + decimal((a - 4) as nat)) == Some(
        isobar_name(z - 2, a - 4),
    ));
}

} // verus!
