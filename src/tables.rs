//! The standard Huffman and quantization tables and the zig-zag order.
use vstd::prelude::*;

verus! {

/// Number of luminance DC codes of each length 1 to 16 (ITU-T T.81, Table K.3).
pub open spec fn std_luma_dc_counts() -> Seq<u8> {
    seq![
        0u8, 1, 5, 1, 1, 1, 1, 1, 1, 0, 0, 0,
        0, 0, 0, 0,
    ]
}

pub(crate) fn luma_dc_counts() -> (r: Vec<u8>)
    ensures
        r@ == std_luma_dc_counts(),
{
    let r = vec![
        0u8, 1, 5, 1, 1, 1, 1, 1, 1, 0, 0, 0,
        0, 0, 0, 0,
    ];
    assert(r@ =~= std_luma_dc_counts());
    r
}

/// Luminance DC symbols in order of increasing code.
pub open spec fn std_luma_dc_values() -> Seq<u8> {
    seq![
        0u8, 1, 2, 3, 4, 5, 6, 7, 8, 9, 10, 11,
    ]
}

pub(crate) fn luma_dc_values() -> (r: Vec<u8>)
    ensures
        r@ == std_luma_dc_values(),
{
    let r = vec![
        0u8, 1, 2, 3, 4, 5, 6, 7, 8, 9, 10, 11,
    ];
    assert(r@ =~= std_luma_dc_values());
    r
}

/// Number of luminance AC codes of each length 1 to 16 (ITU-T T.81, Table K.5).
pub open spec fn std_luma_ac_counts() -> Seq<u8> {
    seq![
        0u8, 2, 1, 3, 3, 2, 4, 3, 5, 5, 4, 4,
        0, 0, 1, 125,
    ]
}

pub(crate) fn luma_ac_counts() -> (r: Vec<u8>)
    ensures
        r@ == std_luma_ac_counts(),
{
    let r = vec![
        0u8, 2, 1, 3, 3, 2, 4, 3, 5, 5, 4, 4,
        0, 0, 1, 125,
    ];
    assert(r@ =~= std_luma_ac_counts());
    r
}

/// Luminance AC symbols in order of increasing code.
pub open spec fn std_luma_ac_values() -> Seq<u8> {
    seq![
        1u8, 2, 3, 0, 4, 17, 5, 18, 33, 49, 65, 6,
        19, 81, 97, 7, 34, 113, 20, 50, 129, 145, 161, 8,
        35, 66, 177, 193, 21, 82, 209, 240, 36, 51, 98, 114,
        130, 9, 10, 22, 23, 24, 25, 26, 37, 38, 39, 40,
        41, 42, 52, 53, 54, 55, 56, 57, 58, 67, 68, 69,
        70, 71, 72, 73, 74, 83, 84, 85, 86, 87, 88, 89,
        90, 99, 100, 101, 102, 103, 104, 105, 106, 115, 116, 117,
        118, 119, 120, 121, 122, 131, 132, 133, 134, 135, 136, 137,
        138, 146, 147, 148, 149, 150, 151, 152, 153, 154, 162, 163,
        164, 165, 166, 167, 168, 169, 170, 178, 179, 180, 181, 182,
        183, 184, 185, 186, 194, 195, 196, 197, 198, 199, 200, 201,
        202, 210, 211, 212, 213, 214, 215, 216, 217, 218, 225, 226,
        227, 228, 229, 230, 231, 232, 233, 234, 241, 242, 243, 244,
        245, 246, 247, 248, 249, 250,
    ]
}

pub(crate) fn luma_ac_values() -> (r: Vec<u8>)
    ensures
        r@ == std_luma_ac_values(),
{
    let r = vec![
        1u8, 2, 3, 0, 4, 17, 5, 18, 33, 49, 65, 6,
        19, 81, 97, 7, 34, 113, 20, 50, 129, 145, 161, 8,
        35, 66, 177, 193, 21, 82, 209, 240, 36, 51, 98, 114,
        130, 9, 10, 22, 23, 24, 25, 26, 37, 38, 39, 40,
        41, 42, 52, 53, 54, 55, 56, 57, 58, 67, 68, 69,
        70, 71, 72, 73, 74, 83, 84, 85, 86, 87, 88, 89,
        90, 99, 100, 101, 102, 103, 104, 105, 106, 115, 116, 117,
        118, 119, 120, 121, 122, 131, 132, 133, 134, 135, 136, 137,
        138, 146, 147, 148, 149, 150, 151, 152, 153, 154, 162, 163,
        164, 165, 166, 167, 168, 169, 170, 178, 179, 180, 181, 182,
        183, 184, 185, 186, 194, 195, 196, 197, 198, 199, 200, 201,
        202, 210, 211, 212, 213, 214, 215, 216, 217, 218, 225, 226,
        227, 228, 229, 230, 231, 232, 233, 234, 241, 242, 243, 244,
        245, 246, 247, 248, 249, 250,
    ];
    assert(r@ =~= std_luma_ac_values());
    r
}

/// Number of chrominance DC codes of each length 1 to 16 (ITU-T T.81, Table K.4).
pub open spec fn std_chroma_dc_counts() -> Seq<u8> {
    seq![
        0u8, 3, 1, 1, 1, 1, 1, 1, 1, 1, 1, 0,
        0, 0, 0, 0,
    ]
}

pub(crate) fn chroma_dc_counts() -> (r: Vec<u8>)
    ensures
        r@ == std_chroma_dc_counts(),
{
    let r = vec![
        0u8, 3, 1, 1, 1, 1, 1, 1, 1, 1, 1, 0,
        0, 0, 0, 0,
    ];
    assert(r@ =~= std_chroma_dc_counts());
    r
}

/// Chrominance DC symbols in order of increasing code.
pub open spec fn std_chroma_dc_values() -> Seq<u8> {
    seq![
        0u8, 1, 2, 3, 4, 5, 6, 7, 8, 9, 10, 11,
    ]
}

pub(crate) fn chroma_dc_values() -> (r: Vec<u8>)
    ensures
        r@ == std_chroma_dc_values(),
{
    let r = vec![
        0u8, 1, 2, 3, 4, 5, 6, 7, 8, 9, 10, 11,
    ];
    assert(r@ =~= std_chroma_dc_values());
    r
}

/// Number of chrominance AC codes of each length 1 to 16 (ITU-T T.81, Table K.6).
pub open spec fn std_chroma_ac_counts() -> Seq<u8> {
    seq![
        0u8, 2, 1, 2, 4, 4, 3, 4, 7, 5, 4, 4,
        0, 1, 2, 119,
    ]
}

pub(crate) fn chroma_ac_counts() -> (r: Vec<u8>)
    ensures
        r@ == std_chroma_ac_counts(),
{
    let r = vec![
        0u8, 2, 1, 2, 4, 4, 3, 4, 7, 5, 4, 4,
        0, 1, 2, 119,
    ];
    assert(r@ =~= std_chroma_ac_counts());
    r
}

/// Chrominance AC symbols in order of increasing code.
pub open spec fn std_chroma_ac_values() -> Seq<u8> {
    seq![
        0u8, 1, 2, 3, 17, 4, 5, 33, 49, 6, 18, 65,
        81, 7, 97, 113, 19, 34, 50, 129, 8, 20, 66, 145,
        161, 177, 193, 9, 35, 51, 82, 240, 21, 98, 114, 209,
        10, 22, 36, 52, 225, 37, 241, 23, 24, 25, 26, 38,
        39, 40, 41, 42, 53, 54, 55, 56, 57, 58, 67, 68,
        69, 70, 71, 72, 73, 74, 83, 84, 85, 86, 87, 88,
        89, 90, 99, 100, 101, 102, 103, 104, 105, 106, 115, 116,
        117, 118, 119, 120, 121, 122, 130, 131, 132, 133, 134, 135,
        136, 137, 138, 146, 147, 148, 149, 150, 151, 152, 153, 154,
        162, 163, 164, 165, 166, 167, 168, 169, 170, 178, 179, 180,
        181, 182, 183, 184, 185, 186, 194, 195, 196, 197, 198, 199,
        200, 201, 202, 210, 211, 212, 213, 214, 215, 216, 217, 218,
        226, 227, 228, 229, 230, 231, 232, 233, 234, 242, 243, 244,
        245, 246, 247, 248, 249, 250,
    ]
}

pub(crate) fn chroma_ac_values() -> (r: Vec<u8>)
    ensures
        r@ == std_chroma_ac_values(),
{
    let r = vec![
        0u8, 1, 2, 3, 17, 4, 5, 33, 49, 6, 18, 65,
        81, 7, 97, 113, 19, 34, 50, 129, 8, 20, 66, 145,
        161, 177, 193, 9, 35, 51, 82, 240, 21, 98, 114, 209,
        10, 22, 36, 52, 225, 37, 241, 23, 24, 25, 26, 38,
        39, 40, 41, 42, 53, 54, 55, 56, 57, 58, 67, 68,
        69, 70, 71, 72, 73, 74, 83, 84, 85, 86, 87, 88,
        89, 90, 99, 100, 101, 102, 103, 104, 105, 106, 115, 116,
        117, 118, 119, 120, 121, 122, 130, 131, 132, 133, 134, 135,
        136, 137, 138, 146, 147, 148, 149, 150, 151, 152, 153, 154,
        162, 163, 164, 165, 166, 167, 168, 169, 170, 178, 179, 180,
        181, 182, 183, 184, 185, 186, 194, 195, 196, 197, 198, 199,
        200, 201, 202, 210, 211, 212, 213, 214, 215, 216, 217, 218,
        226, 227, 228, 229, 230, 231, 232, 233, 234, 242, 243, 244,
        245, 246, 247, 248, 249, 250,
    ];
    assert(r@ =~= std_chroma_ac_values());
    r
}

/// Luminance quantization table in natural (row-major) order (ITU-T T.81, Table K.1).
pub open spec fn std_luma_qtable() -> Seq<u8> {
    seq![
        16u8, 11, 10, 16, 24, 40, 51, 61, 12, 12, 14, 19,
        26, 58, 60, 55, 14, 13, 16, 24, 40, 57, 69, 56,
        14, 17, 22, 29, 51, 87, 80, 62, 18, 22, 37, 56,
        68, 109, 103, 77, 24, 35, 55, 64, 81, 104, 113, 92,
        49, 64, 78, 87, 103, 121, 120, 101, 72, 92, 95, 98,
        112, 100, 103, 99,
    ]
}

pub(crate) fn luma_qtable() -> (r: Vec<u8>)
    ensures
        r@ == std_luma_qtable(),
{
    let r = vec![
        16u8, 11, 10, 16, 24, 40, 51, 61, 12, 12, 14, 19,
        26, 58, 60, 55, 14, 13, 16, 24, 40, 57, 69, 56,
        14, 17, 22, 29, 51, 87, 80, 62, 18, 22, 37, 56,
        68, 109, 103, 77, 24, 35, 55, 64, 81, 104, 113, 92,
        49, 64, 78, 87, 103, 121, 120, 101, 72, 92, 95, 98,
        112, 100, 103, 99,
    ];
    assert(r@ =~= std_luma_qtable());
    r
}

/// Chrominance quantization table in natural (row-major) order (ITU-T T.81, Table K.2).
pub open spec fn std_chroma_qtable() -> Seq<u8> {
    seq![
        17u8, 18, 24, 47, 99, 99, 99, 99, 18, 21, 26, 66,
        99, 99, 99, 99, 24, 26, 56, 99, 99, 99, 99, 99,
        47, 66, 99, 99, 99, 99, 99, 99, 99, 99, 99, 99,
        99, 99, 99, 99, 99, 99, 99, 99, 99, 99, 99, 99,
        99, 99, 99, 99, 99, 99, 99, 99, 99, 99, 99, 99,
        99, 99, 99, 99,
    ]
}

pub(crate) fn chroma_qtable() -> (r: Vec<u8>)
    ensures
        r@ == std_chroma_qtable(),
{
    let r = vec![
        17u8, 18, 24, 47, 99, 99, 99, 99, 18, 21, 26, 66,
        99, 99, 99, 99, 24, 26, 56, 99, 99, 99, 99, 99,
        47, 66, 99, 99, 99, 99, 99, 99, 99, 99, 99, 99,
        99, 99, 99, 99, 99, 99, 99, 99, 99, 99, 99, 99,
        99, 99, 99, 99, 99, 99, 99, 99, 99, 99, 99, 99,
        99, 99, 99, 99,
    ];
    assert(r@ =~= std_chroma_qtable());
    r
}

/// For each zig-zag index, the natural (row-major) position in an 8x8 block.
pub open spec fn unzigzag_order() -> Seq<u8> {
    seq![
        0u8, 1, 8, 16, 9, 2, 3, 10, 17, 24, 32, 25,
        18, 11, 4, 5, 12, 19, 26, 33, 40, 48, 41, 34,
        27, 20, 13, 6, 7, 14, 21, 28, 35, 42, 49, 56,
        57, 50, 43, 36, 29, 22, 15, 23, 30, 37, 44, 51,
        58, 59, 52, 45, 38, 31, 39, 46, 53, 60, 61, 54,
        47, 55, 62, 63,
    ]
}

pub(crate) fn unzigzag() -> (r: [u8; 64])
    ensures
        r@ == unzigzag_order(),
{
    let r = [
        0u8, 1, 8, 16, 9, 2, 3, 10, 17, 24, 32, 25,
        18, 11, 4, 5, 12, 19, 26, 33, 40, 48, 41, 34,
        27, 20, 13, 6, 7, 14, 21, 28, 35, 42, 49, 56,
        57, 50, 43, 36, 29, 22, 15, 23, 30, 37, 44, 51,
        58, 59, 52, 45, 38, 31, 39, 46, 53, 60, 61, 54,
        47, 55, 62, 63,
    ];
    assert(r@ =~= unzigzag_order());
    r
}

pub proof fn lemma_unzigzag_range(k: int)
    requires
        0 <= k < 64,
    ensures
        unzigzag_order()[k] < 64,
{
    let z = unzigzag_order();
    assert(forall|i: int| 0 <= i < 64 ==> #[trigger] z[i] < 64);
}

} // verus!
