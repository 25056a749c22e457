use imagecli::bitmap::{Bitmap, Layout};
use imagecli::{color, color_grade, curve, grain, vignette};

fn rgb(width: u32, height: u32, data: Vec<u8>) -> Bitmap {
    Bitmap::new(width, height, Layout::Rgb, data).unwrap()
}

#[test]
fn curve_golden_s_contrast() {
    let out = curve::apply(rgb(6, 4, vec![255, 255, 255, 32, 130, 60, 230, 241, 194, 48, 249, 14, 199, 221, 1, 136, 117, 52, 15, 11, 13, 4, 195, 110, 14, 113, 224, 119, 176, 118, 235, 148, 11, 51, 95, 151, 255, 255, 255, 216, 97, 155, 128, 128, 128, 255, 201, 17, 206, 212, 88, 191, 44, 224, 55, 83, 201, 15, 240, 22, 201, 87, 86, 6, 102, 118, 176, 180, 235, 2, 196, 66]), 0, -15, 0, 15, 0);
    assert_eq!(out.width(), 6);
    assert_eq!(out.height(), 4);
    assert_eq!(out.into_raw(), vec![255, 255, 255, 6, 132, 22, 251, 253, 232, 13, 254, 2, 236, 249, 0, 144, 108, 16, 2, 1, 1, 0, 233, 95, 2, 100, 250, 111, 211, 110, 252, 166, 1, 15, 68, 171, 255, 255, 255, 247, 72, 178, 128, 128, 128, 255, 238, 2, 241, 245, 57, 229, 11, 250, 18, 49, 238, 2, 253, 3, 238, 55, 54, 1, 80, 110, 211, 217, 252, 0, 234, 28]);
}

#[test]
fn curve_golden_faded() {
    let out = curve::apply(rgb(6, 4, vec![255, 255, 255, 32, 130, 60, 230, 241, 194, 48, 249, 14, 199, 221, 1, 136, 117, 52, 15, 11, 13, 4, 195, 110, 14, 113, 224, 119, 176, 118, 235, 148, 11, 51, 95, 151, 255, 255, 255, 216, 97, 155, 128, 128, 128, 255, 201, 17, 206, 212, 88, 191, 44, 224, 55, 83, 201, 15, 240, 22, 201, 87, 86, 6, 102, 118, 176, 180, 235, 2, 196, 66]), 15, 0, 0, 0, -15);
    assert_eq!(out.width(), 6);
    assert_eq!(out.height(), 4);
    assert_eq!(out.into_raw(), vec![217, 217, 217, 47, 130, 61, 210, 213, 193, 54, 215, 42, 196, 207, 39, 137, 115, 56, 42, 41, 42, 39, 194, 108, 42, 111, 208, 118, 179, 117, 211, 151, 41, 56, 91, 154, 217, 217, 217, 205, 93, 158, 128, 128, 128, 217, 197, 43, 200, 203, 84, 191, 52, 208, 58, 80, 197, 42, 213, 44, 197, 83, 82, 40, 99, 117, 179, 183, 211, 39, 194, 65]);
}

#[test]
fn curve_golden_full() {
    let out = curve::apply(rgb(6, 4, vec![255, 255, 255, 32, 130, 60, 230, 241, 194, 48, 249, 14, 199, 221, 1, 136, 117, 52, 15, 11, 13, 4, 195, 110, 14, 113, 224, 119, 176, 118, 235, 148, 11, 51, 95, 151, 255, 255, 255, 216, 97, 155, 128, 128, 128, 255, 201, 17, 206, 212, 88, 191, 44, 224, 55, 83, 201, 15, 240, 22, 201, 87, 86, 6, 102, 118, 176, 180, 235, 2, 196, 66]), 5, -10, 8, 12, -5);
    assert_eq!(out.width(), 6);
    assert_eq!(out.height(), 4);
    assert_eq!(out.into_raw(), vec![242, 242, 242, 16, 152, 34, 238, 240, 224, 24, 241, 13, 226, 235, 13, 162, 129, 27, 13, 13, 13, 13, 224, 116, 13, 122, 236, 133, 210, 131, 239, 179, 13, 26, 88, 183, 242, 242, 242, 234, 91, 188, 149, 149, 149, 242, 227, 14, 230, 232, 75, 222, 22, 236, 29, 66, 227, 13, 240, 14, 227, 73, 71, 13, 101, 131, 210, 214, 239, 13, 225, 41]);
}

#[test]
fn curve_golden_bump() {
    let out = curve::apply(rgb(6, 4, vec![255, 255, 255, 32, 130, 60, 230, 241, 194, 48, 249, 14, 199, 221, 1, 136, 117, 52, 15, 11, 13, 4, 195, 110, 14, 113, 224, 119, 176, 118, 235, 148, 11, 51, 95, 151, 255, 255, 255, 216, 97, 155, 128, 128, 128, 255, 201, 17, 206, 212, 88, 191, 44, 224, 55, 83, 201, 15, 240, 22, 201, 87, 86, 6, 102, 118, 176, 180, 235, 2, 196, 66]), 0, 25, 0, -25, 0);
    assert_eq!(out.width(), 6);
    assert_eq!(out.height(), 4);
    assert_eq!(out.into_raw(), vec![255, 255, 255, 76, 126, 123, 194, 220, 130, 106, 240, 35, 137, 175, 2, 123, 133, 113, 37, 27, 32, 10, 132, 136, 35, 134, 181, 132, 117, 132, 206, 118, 27, 111, 140, 117, 255, 255, 255, 165, 139, 116, 127, 127, 127, 255, 139, 42, 147, 157, 140, 127, 100, 181, 117, 139, 139, 37, 218, 54, 139, 140, 139, 15, 138, 132, 117, 119, 206, 5, 133, 130]);
}

#[test]
fn curve_golden_extreme() {
    let out = curve::apply(rgb(6, 4, vec![255, 255, 255, 32, 130, 60, 230, 241, 194, 48, 249, 14, 199, 221, 1, 136, 117, 52, 15, 11, 13, 4, 195, 110, 14, 113, 224, 119, 176, 118, 235, 148, 11, 51, 95, 151, 255, 255, 255, 216, 97, 155, 128, 128, 128, 255, 201, 17, 206, 212, 88, 191, 44, 224, 55, 83, 201, 15, 240, 22, 201, 87, 86, 6, 102, 118, 176, 180, 235, 2, 196, 66]), 200, -300, 77, -1000, 1000);
    assert_eq!(out.width(), 6);
    assert_eq!(out.height(), 4);
    assert_eq!(out.into_raw(), vec![255, 255, 255, 59, 254, 0, 95, 161, 0, 4, 214, 161, 0, 49, 248, 244, 239, 0, 155, 181, 167, 228, 0, 214, 161, 226, 63, 244, 52, 242, 123, 201, 181, 0, 138, 186, 255, 255, 255, 29, 149, 165, 255, 255, 255, 255, 0, 142, 2, 16, 99, 0, 13, 63, 0, 72, 0, 155, 155, 112, 0, 93, 88, 214, 176, 242, 52, 34, 123, 241, 0, 5]);
}

#[test]
fn color_golden_warm() {
    let out = color::apply(rgb(5, 3, vec![28, 46, 43, 86, 157, 128, 18, 81, 220, 190, 227, 137, 14, 186, 238, 194, 216, 84, 120, 118, 12, 255, 255, 255, 255, 255, 255, 184, 93, 228, 186, 181, 185, 228, 82, 204, 236, 127, 250, 128, 128, 128, 181, 232, 236]), 40, 0, 0, 0);
    assert_eq!(out.into_raw(), vec![30, 47, 40, 91, 160, 120, 19, 83, 207, 201, 232, 129, 15, 190, 224, 206, 220, 79, 127, 120, 11, 255, 255, 240, 255, 255, 240, 195, 95, 214, 197, 185, 174, 242, 84, 192, 250, 130, 235, 136, 131, 120, 192, 237, 222]);
}

#[test]
fn color_golden_cool_desaturated() {
    let out = color::apply(rgb(5, 3, vec![28, 46, 43, 86, 157, 128, 18, 81, 220, 190, 227, 137, 14, 186, 238, 194, 216, 84, 120, 118, 12, 255, 255, 255, 255, 255, 255, 184, 93, 228, 186, 181, 185, 228, 82, 204, 236, 127, 250, 128, 128, 128, 181, 232, 236]), -20, 0, 0, -30);
    assert_eq!(out.into_raw(), vec![31, 44, 43, 100, 150, 134, 35, 79, 182, 192, 220, 162, 55, 175, 217, 191, 209, 120, 114, 115, 41, 249, 252, 254, 249, 252, 254, 161, 101, 201, 180, 180, 187, 191, 93, 183, 207, 135, 226, 125, 127, 130, 189, 227, 236]);
}

#[test]
fn color_golden_vibrance_tint() {
    let out = color::apply(rgb(5, 3, vec![28, 46, 43, 86, 157, 128, 18, 81, 220, 190, 227, 137, 14, 186, 238, 194, 216, 84, 120, 118, 12, 255, 255, 255, 255, 255, 255, 184, 93, 228, 186, 181, 185, 228, 82, 204, 236, 127, 250, 128, 128, 128, 181, 232, 236]), 0, 25, 60, 0);
    assert_eq!(out.into_raw(), vec![24, 46, 45, 70, 156, 127, 15, 78, 230, 187, 223, 113, 9, 180, 244, 196, 211, 58, 122, 114, 6, 255, 244, 255, 255, 244, 255, 202, 82, 255, 194, 172, 192, 253, 70, 224, 255, 112, 255, 132, 122, 132, 168, 227, 250]);
}

#[test]
fn color_golden_extremes() {
    let out = color::apply(rgb(5, 3, vec![28, 46, 43, 86, 157, 128, 18, 81, 220, 190, 227, 137, 14, 186, 238, 194, 216, 84, 120, 118, 12, 255, 255, 255, 255, 255, 255, 184, 93, 228, 186, 181, 185, 228, 82, 204, 236, 127, 250, 128, 128, 128, 181, 232, 236]), 100, -100, 100, 100);
    assert_eq!(out.into_raw(), vec![0, 69, 5, 0, 241, 0, 0, 110, 255, 161, 255, 0, 0, 255, 206, 184, 255, 0, 134, 155, 0, 255, 255, 81, 255, 255, 81, 255, 60, 255, 193, 235, 3, 255, 32, 213, 255, 97, 249, 126, 169, 0, 102, 255, 66]);
}

#[test]
fn color_golden_negative_extremes() {
    let out = color::apply(rgb(5, 3, vec![28, 46, 43, 86, 157, 128, 18, 81, 220, 190, 227, 137, 14, 186, 238, 194, 216, 84, 120, 118, 12, 255, 255, 255, 255, 255, 255, 184, 93, 228, 186, 181, 185, 228, 82, 204, 236, 127, 250, 128, 128, 128, 181, 232, 236]), -100, 100, -100, -100);
    assert_eq!(out.into_raw(), vec![35, 35, 35, 117, 117, 117, 68, 68, 68, 178, 178, 178, 128, 128, 128, 168, 168, 168, 92, 92, 92, 213, 213, 213, 213, 213, 213, 107, 107, 107, 155, 155, 155, 108, 108, 108, 136, 136, 136, 109, 109, 109, 186, 186, 186]);
}

#[test]
fn color_golden_out_of_range() {
    let out = color::apply(rgb(5, 3, vec![28, 46, 43, 86, 157, 128, 18, 81, 220, 190, 227, 137, 14, 186, 238, 194, 216, 84, 120, 118, 12, 255, 255, 255, 255, 255, 255, 184, 93, 228, 186, 181, 185, 228, 82, 204, 236, 127, 250, 128, 128, 128, 181, 232, 236]), 1000, -1000, 500, -500);
    assert_eq!(out.into_raw(), vec![49, 49, 49, 162, 162, 162, 86, 86, 86, 235, 235, 235, 177, 177, 177, 233, 233, 233, 130, 130, 130, 251, 251, 251, 251, 251, 251, 136, 136, 136, 210, 210, 210, 135, 135, 135, 178, 178, 178, 147, 147, 147, 238, 238, 238]);
}

#[test]
fn color_grade_golden_warm_shadows() {
    let out = color_grade::apply(rgb(5, 3, vec![128, 128, 128, 189, 242, 33, 240, 132, 119, 255, 255, 255, 243, 203, 77, 128, 128, 128, 255, 255, 255, 199, 7, 32, 255, 255, 255, 21, 154, 15, 137, 242, 198, 218, 202, 227, 68, 187, 49, 0, 0, 0, 132, 223, 154]), 30, 60, 0, 0, 0, 0, 0, 0, 0);
    assert_eq!(out.into_raw(), vec![128, 128, 128, 189, 242, 33, 240, 132, 119, 255, 255, 255, 243, 203, 77, 128, 128, 128, 255, 255, 255, 231, 7, 0, 255, 255, 255, 22, 154, 14, 137, 242, 198, 218, 202, 227, 68, 187, 49, 48, 0, 0, 132, 223, 154]);
}

#[test]
fn color_grade_golden_teal_orange() {
    let out = color_grade::apply(rgb(5, 3, vec![128, 128, 128, 189, 242, 33, 240, 132, 119, 255, 255, 255, 243, 203, 77, 128, 128, 128, 255, 255, 255, 199, 7, 32, 255, 255, 255, 21, 154, 15, 137, 242, 198, 218, 202, 227, 68, 187, 49, 0, 0, 0, 132, 223, 154]), 200, 50, 0, 0, 0, 0, 30, 40, 0);
    assert_eq!(out.into_raw(), vec![128, 128, 128, 214, 242, 8, 244, 132, 115, 255, 255, 223, 255, 203, 57, 128, 128, 128, 255, 255, 223, 172, 16, 59, 255, 255, 223, 20, 154, 16, 162, 242, 173, 240, 202, 205, 71, 187, 46, 0, 13, 40, 151, 223, 135]);
}

#[test]
fn color_grade_golden_full() {
    let out = color_grade::apply(rgb(5, 3, vec![128, 128, 128, 189, 242, 33, 240, 132, 119, 255, 255, 255, 243, 203, 77, 128, 128, 128, 255, 255, 255, 199, 7, 32, 255, 255, 255, 21, 154, 15, 137, 242, 198, 218, 202, 227, 68, 187, 49, 0, 0, 0, 132, 223, 154]), 240, 40, -10, 120, 20, 5, 50, 35, 10);
    assert_eq!(out.into_raw(), vec![115, 148, 115, 216, 255, 8, 235, 152, 104, 255, 255, 238, 255, 230, 56, 115, 148, 115, 255, 255, 238, 168, 0, 47, 255, 255, 238, 5, 173, 0, 162, 255, 180, 242, 229, 211, 58, 209, 33, 0, 0, 30, 147, 250, 136]);
}

#[test]
fn color_grade_golden_extremes() {
    let out = color_grade::apply(rgb(5, 3, vec![128, 128, 128, 189, 242, 33, 240, 132, 119, 255, 255, 255, 243, 203, 77, 128, 128, 128, 255, 255, 255, 199, 7, 32, 255, 255, 255, 21, 154, 15, 137, 242, 198, 218, 202, 227, 68, 187, 49, 0, 0, 0, 132, 223, 154]), 359, 100, 100, 725, 300, -100, 60, 100, -250);
    assert_eq!(out.into_raw(), vec![104, 31, 24, 146, 157, 0, 168, 43, 20, 168, 168, 88, 180, 128, 0, 104, 31, 24, 168, 168, 88, 255, 0, 0, 168, 168, 88, 52, 45, 0, 118, 157, 64, 165, 131, 81, 77, 70, 0, 120, 0, 0, 119, 136, 41]);
}

#[test]
fn grain_golden_default() {
    let out = grain::apply(rgb(7, 5, vec![128, 128, 128, 255, 255, 255, 79, 46, 34, 0, 0, 0, 148, 30, 113, 184, 141, 88, 134, 109, 13, 133, 139, 99, 255, 255, 255, 128, 128, 128, 190, 44, 172, 127, 91, 126, 45, 153, 3, 159, 99, 211, 147, 220, 231, 255, 255, 255, 22, 41, 23, 143, 241, 175, 255, 255, 255, 34, 211, 103, 225, 141, 94, 164, 101, 165, 255, 255, 255, 0, 0, 0, 128, 128, 128, 121, 62, 169, 148, 235, 13, 0, 0, 0, 146, 167, 9, 164, 78, 210, 39, 150, 98, 149, 69, 128, 81, 169, 4, 232, 86, 186, 185, 148, 49]), 25, 25, 50, false);
    assert_eq!(out.into_raw(), vec![104, 123, 129, 255, 255, 255, 83, 43, 52, 0, 0, 0, 165, 27, 135, 191, 144, 102, 139, 97, 13, 136, 151, 83, 255, 255, 255, 131, 148, 133, 191, 50, 177, 121, 98, 125, 44, 152, 43, 150, 95, 217, 147, 226, 228, 255, 255, 255, 46, 49, 22, 139, 240, 177, 255, 255, 255, 32, 213, 109, 225, 141, 103, 166, 107, 169, 255, 255, 255, 0, 0, 0, 151, 123, 109, 119, 74, 156, 133, 226, 12, 0, 0, 0, 122, 159, 9, 177, 102, 215, 74, 162, 90, 158, 63, 125, 101, 167, 4, 219, 84, 180, 160, 137, 56]);
}

#[test]
fn grain_golden_fine_sharp() {
    let out = grain::apply(rgb(7, 5, vec![128, 128, 128, 255, 255, 255, 79, 46, 34, 0, 0, 0, 148, 30, 113, 184, 141, 88, 134, 109, 13, 133, 139, 99, 255, 255, 255, 128, 128, 128, 190, 44, 172, 127, 91, 126, 45, 153, 3, 159, 99, 211, 147, 220, 231, 255, 255, 255, 22, 41, 23, 143, 241, 175, 255, 255, 255, 34, 211, 103, 225, 141, 94, 164, 101, 165, 255, 255, 255, 0, 0, 0, 128, 128, 128, 121, 62, 169, 148, 235, 13, 0, 0, 0, 146, 167, 9, 164, 78, 210, 39, 150, 98, 149, 69, 128, 81, 169, 4, 232, 86, 186, 185, 148, 49]), 60, 0, 100, false);
    assert_eq!(out.into_raw(), vec![71, 109, 132, 255, 255, 255, 157, 27, 104, 0, 0, 0, 179, 22, 179, 171, 193, 108, 81, 89, 13, 162, 168, 53, 255, 255, 255, 129, 174, 156, 177, 35, 193, 64, 85, 94, 27, 159, 136, 77, 101, 234, 116, 237, 238, 255, 255, 255, 57, 41, 20, 95, 192, 183, 255, 255, 255, 26, 225, 103, 227, 166, 99, 171, 69, 172, 255, 255, 255, 0, 0, 0, 193, 100, 85, 98, 123, 130, 89, 236, 10, 0, 0, 0, 64, 81, 5, 210, 152, 224, 86, 189, 94, 150, 44, 171, 131, 178, 66, 195, 105, 188, 156, 126, 73]);
}

#[test]
fn grain_golden_coarse_smooth() {
    let out = grain::apply(rgb(7, 5, vec![128, 128, 128, 255, 255, 255, 79, 46, 34, 0, 0, 0, 148, 30, 113, 184, 141, 88, 134, 109, 13, 133, 139, 99, 255, 255, 255, 128, 128, 128, 190, 44, 172, 127, 91, 126, 45, 153, 3, 159, 99, 211, 147, 220, 231, 255, 255, 255, 22, 41, 23, 143, 241, 175, 255, 255, 255, 34, 211, 103, 225, 141, 94, 164, 101, 165, 255, 255, 255, 0, 0, 0, 128, 128, 128, 121, 62, 169, 148, 235, 13, 0, 0, 0, 146, 167, 9, 164, 78, 210, 39, 150, 98, 149, 69, 128, 81, 169, 4, 232, 86, 186, 185, 148, 49]), 80, 100, 0, false);
    assert_eq!(out.into_raw(), vec![52, 106, 133, 255, 255, 255, 39, 41, 44, 0, 0, 0, 73, 28, 128, 93, 131, 109, 83, 93, 46, 67, 132, 92, 255, 255, 255, 70, 129, 123, 112, 53, 173, 79, 103, 134, 29, 160, 28, 117, 100, 216, 112, 223, 181, 255, 255, 255, 19, 63, 20, 131, 243, 164, 255, 255, 255, 32, 223, 112, 225, 166, 106, 164, 140, 93, 255, 255, 255, 0, 0, 0, 155, 178, 101, 160, 146, 155, 181, 243, 15, 0, 0, 0, 170, 196, 4, 188, 144, 90, 119, 195, 52, 201, 160, 89, 184, 215, 3, 247, 178, 182, 226, 205, 49]);
}

#[test]
fn grain_golden_monochrome() {
    let out = grain::apply(rgb(7, 5, vec![128, 128, 128, 255, 255, 255, 79, 46, 34, 0, 0, 0, 148, 30, 113, 184, 141, 88, 134, 109, 13, 133, 139, 99, 255, 255, 255, 128, 128, 128, 190, 44, 172, 127, 91, 126, 45, 153, 3, 159, 99, 211, 147, 220, 231, 255, 255, 255, 22, 41, 23, 143, 241, 175, 255, 255, 255, 34, 211, 103, 225, 141, 94, 164, 101, 165, 255, 255, 255, 0, 0, 0, 128, 128, 128, 121, 62, 169, 148, 235, 13, 0, 0, 0, 146, 167, 9, 164, 78, 210, 39, 150, 98, 149, 69, 128, 81, 169, 4, 232, 86, 186, 185, 148, 49]), 50, 40, 30, true);
    assert_eq!(out.into_raw(), vec![81, 81, 81, 255, 255, 255, 72, 42, 31, 0, 0, 0, 162, 60, 132, 202, 170, 131, 158, 138, 60, 124, 130, 92, 255, 255, 255, 122, 122, 122, 183, 42, 166, 123, 88, 122, 63, 162, 25, 166, 110, 214, 149, 221, 232, 255, 255, 255, 63, 79, 64, 152, 242, 182, 255, 255, 255, 33, 208, 101, 227, 147, 102, 177, 123, 178, 255, 255, 255, 0, 0, 0, 184, 184, 184, 135, 83, 178, 136, 216, 12, 0, 0, 0, 123, 141, 8, 184, 118, 220, 112, 186, 151, 183, 128, 169, 127, 192, 71, 233, 95, 189, 183, 146, 48]);
}

#[test]
fn grain_golden_out_of_range() {
    let out = grain::apply(rgb(7, 5, vec![128, 128, 128, 255, 255, 255, 79, 46, 34, 0, 0, 0, 148, 30, 113, 184, 141, 88, 134, 109, 13, 133, 139, 99, 255, 255, 255, 128, 128, 128, 190, 44, 172, 127, 91, 126, 45, 153, 3, 159, 99, 211, 147, 220, 231, 255, 255, 255, 22, 41, 23, 143, 241, 175, 255, 255, 255, 34, 211, 103, 225, 141, 94, 164, 101, 165, 255, 255, 255, 0, 0, 0, 128, 128, 128, 121, 62, 169, 148, 235, 13, 0, 0, 0, 146, 167, 9, 164, 78, 210, 39, 150, 98, 149, 69, 128, 81, 169, 4, 232, 86, 186, 185, 148, 49]), 500, 300, 200, false);
    assert_eq!(out.into_raw(), vec![34, 96, 134, 255, 255, 255, 209, 15, 151, 0, 0, 0, 200, 17, 223, 162, 228, 122, 45, 75, 13, 182, 188, 22, 255, 255, 255, 130, 205, 174, 168, 30, 207, 23, 80, 72, 15, 162, 224, 23, 102, 250, 96, 248, 242, 255, 255, 255, 81, 41, 18, 63, 160, 188, 255, 255, 255, 20, 234, 102, 228, 183, 102, 176, 48, 176, 255, 255, 255, 0, 0, 0, 237, 82, 56, 82, 164, 105, 49, 236, 9, 0, 0, 0, 10, 24, 2, 240, 202, 233, 118, 215, 92, 151, 28, 200, 164, 183, 107, 171, 118, 189, 137, 112, 88]);
}

#[test]
fn vignette_golden_dark_default_7x5() {
    let out = vignette::apply(rgb(7, 5, vec![183, 14, 238, 127, 26, 80, 255, 255, 255, 126, 194, 52, 6, 110, 208, 128, 128, 128, 199, 81, 36, 255, 255, 255, 64, 67, 0, 2, 107, 110, 84, 85, 148, 101, 104, 93, 100, 196, 152, 0, 0, 0, 74, 135, 33, 1, 173, 33, 156, 246, 161, 255, 255, 255, 90, 29, 131, 11, 183, 206, 0, 0, 0, 187, 192, 4, 92, 100, 60, 236, 176, 181, 128, 236, 55, 188, 151, 18, 46, 106, 174, 185, 75, 174, 128, 128, 128, 47, 159, 162, 40, 76, 158, 82, 24, 41, 207, 16, 121, 176, 128, 233, 74, 28, 16]), -50, 50, 0, 50);
    assert_eq!(out.into_raw(), vec![152, 12, 198, 127, 26, 80, 255, 255, 255, 126, 194, 52, 6, 110, 208, 128, 128, 128, 166, 67, 30, 234, 234, 234, 64, 67, 0, 2, 107, 110, 84, 85, 148, 101, 104, 93, 100, 196, 152, 0, 0, 0, 70, 127, 31, 1, 173, 33, 156, 246, 161, 255, 255, 255, 90, 29, 131, 11, 183, 206, 0, 0, 0, 171, 176, 4, 92, 100, 60, 236, 176, 181, 128, 236, 55, 188, 151, 18, 46, 106, 174, 169, 69, 159, 107, 107, 107, 47, 159, 162, 40, 76, 158, 82, 24, 41, 207, 16, 121, 176, 128, 233, 62, 23, 13]);
}

#[test]
fn vignette_golden_light_rectangular_7x5() {
    let out = vignette::apply(rgb(7, 5, vec![183, 14, 238, 127, 26, 80, 255, 255, 255, 126, 194, 52, 6, 110, 208, 128, 128, 128, 199, 81, 36, 255, 255, 255, 64, 67, 0, 2, 107, 110, 84, 85, 148, 101, 104, 93, 100, 196, 152, 0, 0, 0, 74, 135, 33, 1, 173, 33, 156, 246, 161, 255, 255, 255, 90, 29, 131, 11, 183, 206, 0, 0, 0, 187, 192, 4, 92, 100, 60, 236, 176, 181, 128, 236, 55, 188, 151, 18, 46, 106, 174, 185, 75, 174, 128, 128, 128, 47, 159, 162, 40, 76, 158, 82, 24, 41, 207, 16, 121, 176, 128, 233, 74, 28, 16]), 80, 30, -80, 20);
    assert_eq!(out.into_raw(), vec![241, 207, 252, 210, 175, 194, 255, 255, 255, 194, 226, 159, 147, 192, 235, 211, 211, 211, 244, 220, 211, 255, 255, 255, 172, 173, 144, 2, 107, 110, 84, 85, 148, 101, 104, 93, 188, 229, 210, 204, 204, 204, 219, 231, 211, 135, 216, 150, 156, 246, 161, 255, 255, 255, 90, 29, 131, 139, 221, 232, 204, 204, 204, 241, 242, 205, 184, 188, 170, 236, 176, 181, 128, 236, 55, 188, 151, 18, 164, 190, 220, 241, 219, 239, 230, 230, 230, 183, 222, 223, 161, 177, 213, 173, 146, 154, 234, 151, 197, 228, 211, 247, 219, 210, 207]);
}

#[test]
fn vignette_golden_heavy_circular_7x5() {
    let out = vignette::apply(rgb(7, 5, vec![183, 14, 238, 127, 26, 80, 255, 255, 255, 126, 194, 52, 6, 110, 208, 128, 128, 128, 199, 81, 36, 255, 255, 255, 64, 67, 0, 2, 107, 110, 84, 85, 148, 101, 104, 93, 100, 196, 152, 0, 0, 0, 74, 135, 33, 1, 173, 33, 156, 246, 161, 255, 255, 255, 90, 29, 131, 11, 183, 206, 0, 0, 0, 187, 192, 4, 92, 100, 60, 236, 176, 181, 128, 236, 55, 188, 151, 18, 46, 106, 174, 185, 75, 174, 128, 128, 128, 47, 159, 162, 40, 76, 158, 82, 24, 41, 207, 16, 121, 176, 128, 233, 74, 28, 16]), -90, 10, 100, 70);
    assert_eq!(out.into_raw(), vec![18, 1, 24, 14, 3, 9, 76, 76, 76, 52, 80, 22, 2, 33, 62, 14, 14, 14, 20, 8, 4, 26, 26, 26, 19, 20, 0, 1, 78, 80, 77, 77, 135, 74, 76, 68, 30, 58, 45, 0, 0, 0, 7, 14, 3, 0, 72, 14, 142, 224, 147, 255, 255, 255, 82, 26, 119, 5, 76, 85, 0, 0, 0, 19, 19, 0, 27, 30, 18, 172, 129, 132, 117, 215, 50, 137, 110, 13, 14, 31, 52, 19, 8, 17, 13, 13, 13, 5, 17, 18, 12, 23, 47, 34, 10, 17, 61, 5, 36, 19, 14, 25, 7, 3, 2]);
}

#[test]
fn vignette_golden_hard_edge_7x5() {
    let out = vignette::apply(rgb(7, 5, vec![183, 14, 238, 127, 26, 80, 255, 255, 255, 126, 194, 52, 6, 110, 208, 128, 128, 128, 199, 81, 36, 255, 255, 255, 64, 67, 0, 2, 107, 110, 84, 85, 148, 101, 104, 93, 100, 196, 152, 0, 0, 0, 74, 135, 33, 1, 173, 33, 156, 246, 161, 255, 255, 255, 90, 29, 131, 11, 183, 206, 0, 0, 0, 187, 192, 4, 92, 100, 60, 236, 176, 181, 128, 236, 55, 188, 151, 18, 46, 106, 174, 185, 75, 174, 128, 128, 128, 47, 159, 162, 40, 76, 158, 82, 24, 41, 207, 16, 121, 176, 128, 233, 74, 28, 16]), -100, 40, 30, 0);
    assert_eq!(out.into_raw(), vec![0, 0, 0, 0, 0, 0, 0, 0, 0, 126, 194, 52, 0, 0, 0, 0, 0, 0, 0, 0, 0, 0, 0, 0, 0, 0, 0, 2, 107, 110, 84, 85, 148, 101, 104, 93, 0, 0, 0, 0, 0, 0, 0, 0, 0, 1, 173, 33, 156, 246, 161, 255, 255, 255, 90, 29, 131, 11, 183, 206, 0, 0, 0, 0, 0, 0, 0, 0, 0, 236, 176, 181, 128, 236, 55, 188, 151, 18, 0, 0, 0, 0, 0, 0, 0, 0, 0, 0, 0, 0, 0, 0, 0, 82, 24, 41, 0, 0, 0, 0, 0, 0, 0, 0, 0]);
}

#[test]
fn vignette_golden_out_of_range_7x5() {
    let out = vignette::apply(rgb(7, 5, vec![183, 14, 238, 127, 26, 80, 255, 255, 255, 126, 194, 52, 6, 110, 208, 128, 128, 128, 199, 81, 36, 255, 255, 255, 64, 67, 0, 2, 107, 110, 84, 85, 148, 101, 104, 93, 100, 196, 152, 0, 0, 0, 74, 135, 33, 1, 173, 33, 156, 246, 161, 255, 255, 255, 90, 29, 131, 11, 183, 206, 0, 0, 0, 187, 192, 4, 92, 100, 60, 236, 176, 181, 128, 236, 55, 188, 151, 18, 46, 106, 174, 185, 75, 174, 128, 128, 128, 47, 159, 162, 40, 76, 158, 82, 24, 41, 207, 16, 121, 176, 128, 233, 74, 28, 16]), -1000, 500, 400, 300);
    assert_eq!(out.into_raw(), vec![183, 14, 238, 127, 26, 80, 255, 255, 255, 126, 194, 52, 6, 110, 208, 128, 128, 128, 199, 81, 36, 255, 255, 255, 64, 67, 0, 2, 107, 110, 84, 85, 148, 101, 104, 93, 100, 196, 152, 0, 0, 0, 74, 135, 33, 1, 173, 33, 156, 246, 161, 255, 255, 255, 90, 29, 131, 11, 183, 206, 0, 0, 0, 187, 192, 4, 92, 100, 60, 236, 176, 181, 128, 236, 55, 188, 151, 18, 46, 106, 174, 185, 75, 174, 128, 128, 128, 47, 159, 162, 40, 76, 158, 82, 24, 41, 207, 16, 121, 176, 128, 233, 74, 28, 16]);
}

#[test]
fn vignette_golden_dark_default_4x9() {
    let out = vignette::apply(rgb(4, 9, vec![41, 248, 133, 0, 0, 0, 255, 255, 255, 191, 163, 11, 128, 128, 128, 211, 48, 98, 135, 45, 217, 47, 185, 209, 227, 48, 100, 149, 49, 23, 102, 184, 249, 99, 14, 185, 128, 128, 128, 182, 61, 45, 101, 59, 137, 100, 194, 247, 128, 128, 128, 6, 96, 86, 0, 0, 0, 156, 191, 193, 148, 64, 250, 0, 0, 0, 203, 49, 225, 128, 128, 128, 228, 228, 194, 218, 241, 155, 209, 43, 98, 136, 231, 249, 88, 9, 11, 128, 184, 96, 128, 128, 128, 130, 210, 215, 137, 243, 245, 193, 254, 156, 239, 165, 187, 192, 136, 163]), -50, 50, 0, 50);
    assert_eq!(out.into_raw(), vec![36, 215, 115, 0, 0, 0, 230, 230, 230, 166, 141, 10, 128, 128, 128, 211, 48, 98, 135, 45, 217, 47, 185, 209, 227, 48, 100, 149, 49, 23, 102, 184, 249, 99, 14, 185, 128, 128, 128, 182, 61, 45, 101, 59, 137, 100, 194, 247, 128, 128, 128, 6, 96, 86, 0, 0, 0, 156, 191, 193, 148, 64, 250, 0, 0, 0, 203, 49, 225, 128, 128, 128, 228, 228, 194, 218, 241, 155, 209, 43, 98, 136, 231, 249, 88, 9, 11, 128, 184, 96, 128, 128, 128, 130, 210, 215, 119, 211, 212, 174, 229, 141, 215, 149, 169, 166, 118, 141]);
}

#[test]
fn vignette_golden_light_rectangular_4x9() {
    let out = vignette::apply(rgb(4, 9, vec![41, 248, 133, 0, 0, 0, 255, 255, 255, 191, 163, 11, 128, 128, 128, 211, 48, 98, 135, 45, 217, 47, 185, 209, 227, 48, 100, 149, 49, 23, 102, 184, 249, 99, 14, 185, 128, 128, 128, 182, 61, 45, 101, 59, 137, 100, 194, 247, 128, 128, 128, 6, 96, 86, 0, 0, 0, 156, 191, 193, 148, 64, 250, 0, 0, 0, 203, 49, 225, 128, 128, 128, 228, 228, 194, 218, 241, 155, 209, 43, 98, 136, 231, 249, 88, 9, 11, 128, 184, 96, 128, 128, 128, 130, 210, 215, 137, 243, 245, 193, 254, 156, 239, 165, 187, 192, 136, 163]), 80, 30, -80, 20);
    assert_eq!(out.into_raw(), vec![212, 254, 231, 204, 204, 204, 255, 255, 255, 242, 237, 206, 230, 230, 230, 246, 214, 224, 231, 213, 247, 213, 241, 246, 227, 48, 100, 149, 49, 23, 102, 184, 249, 99, 14, 185, 128, 128, 128, 182, 61, 45, 101, 59, 137, 100, 194, 247, 128, 128, 128, 6, 96, 86, 0, 0, 0, 156, 191, 193, 148, 64, 250, 0, 0, 0, 203, 49, 225, 128, 128, 128, 228, 228, 194, 218, 241, 155, 209, 43, 98, 136, 231, 249, 222, 206, 206, 230, 241, 223, 230, 230, 230, 230, 246, 247, 231, 253, 253, 243, 255, 235, 252, 237, 241, 242, 231, 237]);
}

#[test]
fn vignette_golden_heavy_circular_4x9() {
    let out = vignette::apply(rgb(4, 9, vec![41, 248, 133, 0, 0, 0, 255, 255, 255, 191, 163, 11, 128, 128, 128, 211, 48, 98, 135, 45, 217, 47, 185, 209, 227, 48, 100, 149, 49, 23, 102, 184, 249, 99, 14, 185, 128, 128, 128, 182, 61, 45, 101, 59, 137, 100, 194, 247, 128, 128, 128, 6, 96, 86, 0, 0, 0, 156, 191, 193, 148, 64, 250, 0, 0, 0, 203, 49, 225, 128, 128, 128, 228, 228, 194, 218, 241, 155, 209, 43, 98, 136, 231, 249, 88, 9, 11, 128, 184, 96, 128, 128, 128, 130, 210, 215, 137, 243, 245, 193, 254, 156, 239, 165, 187, 192, 136, 163]), -90, 10, 100, 70);
    assert_eq!(out.into_raw(), vec![4, 25, 13, 0, 0, 0, 26, 26, 26, 19, 16, 1, 20, 20, 20, 51, 11, 23, 32, 11, 52, 7, 29, 32, 101, 21, 44, 94, 31, 14, 64, 116, 157, 44, 6, 82, 94, 94, 94, 173, 58, 43, 96, 56, 130, 74, 143, 182, 108, 108, 108, 6, 96, 86, 0, 0, 0, 132, 162, 163, 109, 47, 184, 0, 0, 0, 193, 47, 214, 94, 94, 94, 101, 101, 86, 137, 152, 98, 132, 27, 62, 60, 103, 110, 14, 1, 2, 31, 44, 23, 31, 31, 31, 20, 32, 33, 14, 24, 25, 19, 25, 16, 24, 17, 19, 19, 14, 16]);
}

#[test]
fn vignette_golden_hard_edge_4x9() {
    let out = vignette::apply(rgb(4, 9, vec![41, 248, 133, 0, 0, 0, 255, 255, 255, 191, 163, 11, 128, 128, 128, 211, 48, 98, 135, 45, 217, 47, 185, 209, 227, 48, 100, 149, 49, 23, 102, 184, 249, 99, 14, 185, 128, 128, 128, 182, 61, 45, 101, 59, 137, 100, 194, 247, 128, 128, 128, 6, 96, 86, 0, 0, 0, 156, 191, 193, 148, 64, 250, 0, 0, 0, 203, 49, 225, 128, 128, 128, 228, 228, 194, 218, 241, 155, 209, 43, 98, 136, 231, 249, 88, 9, 11, 128, 184, 96, 128, 128, 128, 130, 210, 215, 137, 243, 245, 193, 254, 156, 239, 165, 187, 192, 136, 163]), -100, 40, 30, 0);
    assert_eq!(out.into_raw(), vec![0, 0, 0, 0, 0, 0, 0, 0, 0, 0, 0, 0, 0, 0, 0, 0, 0, 0, 0, 0, 0, 0, 0, 0, 227, 48, 100, 149, 49, 23, 102, 184, 249, 99, 14, 185, 128, 128, 128, 182, 61, 45, 101, 59, 137, 100, 194, 247, 128, 128, 128, 6, 96, 86, 0, 0, 0, 156, 191, 193, 148, 64, 250, 0, 0, 0, 203, 49, 225, 128, 128, 128, 228, 228, 194, 218, 241, 155, 209, 43, 98, 136, 231, 249, 0, 0, 0, 0, 0, 0, 0, 0, 0, 0, 0, 0, 0, 0, 0, 0, 0, 0, 0, 0, 0, 0, 0, 0]);
}

#[test]
fn vignette_golden_out_of_range_4x9() {
    let out = vignette::apply(rgb(4, 9, vec![41, 248, 133, 0, 0, 0, 255, 255, 255, 191, 163, 11, 128, 128, 128, 211, 48, 98, 135, 45, 217, 47, 185, 209, 227, 48, 100, 149, 49, 23, 102, 184, 249, 99, 14, 185, 128, 128, 128, 182, 61, 45, 101, 59, 137, 100, 194, 247, 128, 128, 128, 6, 96, 86, 0, 0, 0, 156, 191, 193, 148, 64, 250, 0, 0, 0, 203, 49, 225, 128, 128, 128, 228, 228, 194, 218, 241, 155, 209, 43, 98, 136, 231, 249, 88, 9, 11, 128, 184, 96, 128, 128, 128, 130, 210, 215, 137, 243, 245, 193, 254, 156, 239, 165, 187, 192, 136, 163]), -1000, 500, 400, 300);
    assert_eq!(out.into_raw(), vec![41, 248, 133, 0, 0, 0, 255, 255, 255, 191, 163, 11, 128, 128, 128, 211, 48, 98, 135, 45, 217, 47, 185, 209, 227, 48, 100, 149, 49, 23, 102, 184, 249, 99, 14, 185, 128, 128, 128, 182, 61, 45, 101, 59, 137, 100, 194, 247, 128, 128, 128, 6, 96, 86, 0, 0, 0, 156, 191, 193, 148, 64, 250, 0, 0, 0, 203, 49, 225, 128, 128, 128, 228, 228, 194, 218, 241, 155, 209, 43, 98, 136, 231, 249, 88, 9, 11, 128, 184, 96, 128, 128, 128, 130, 210, 215, 137, 243, 245, 193, 254, 156, 239, 165, 187, 192, 136, 163]);
}

#[test]
fn vignette_golden_dark_default_6x6() {
    let out = vignette::apply(rgb(6, 6, vec![77, 202, 24, 0, 0, 0, 187, 29, 109, 0, 0, 0, 35, 123, 46, 30, 63, 114, 31, 203, 25, 23, 68, 148, 60, 157, 92, 255, 255, 255, 96, 190, 49, 32, 30, 105, 218, 160, 238, 232, 185, 153, 128, 128, 128, 255, 255, 255, 41, 153, 253, 229, 147, 37, 255, 255, 255, 175, 77, 250, 39, 160, 174, 254, 233, 35, 138, 242, 33, 0, 0, 0, 228, 145, 197, 177, 11, 236, 59, 252, 30, 128, 128, 128, 128, 128, 128, 203, 200, 254, 0, 0, 0, 142, 70, 220, 142, 212, 183, 194, 118, 77, 0, 0, 0, 255, 255, 255]), -50, 50, 0, 50);
    assert_eq!(out.into_raw(), vec![57, 150, 18, 0, 0, 0, 179, 28, 104, 0, 0, 0, 31, 109, 41, 22, 47, 84, 28, 180, 22, 23, 68, 148, 60, 157, 92, 255, 255, 255, 96, 190, 49, 28, 27, 93, 208, 153, 227, 232, 185, 153, 128, 128, 128, 255, 255, 255, 41, 153, 253, 219, 141, 35, 244, 244, 244, 175, 77, 250, 39, 160, 174, 254, 233, 35, 138, 242, 33, 0, 0, 0, 203, 129, 175, 177, 11, 236, 59, 252, 30, 128, 128, 128, 128, 128, 128, 180, 178, 226, 0, 0, 0, 126, 62, 196, 136, 203, 175, 185, 113, 74, 0, 0, 0, 189, 189, 189]);
}

#[test]
fn vignette_golden_light_rectangular_6x6() {
    let out = vignette::apply(rgb(6, 6, vec![77, 202, 24, 0, 0, 0, 187, 29, 109, 0, 0, 0, 35, 123, 46, 30, 63, 114, 31, 203, 25, 23, 68, 148, 60, 157, 92, 255, 255, 255, 96, 190, 49, 32, 30, 105, 218, 160, 238, 232, 185, 153, 128, 128, 128, 255, 255, 255, 41, 153, 253, 229, 147, 37, 255, 255, 255, 175, 77, 250, 39, 160, 174, 254, 233, 35, 138, 242, 33, 0, 0, 0, 228, 145, 197, 177, 11, 236, 59, 252, 30, 128, 128, 128, 128, 128, 128, 203, 200, 254, 0, 0, 0, 142, 70, 220, 142, 212, 183, 194, 118, 77, 0, 0, 0, 255, 255, 255]), 80, 30, -80, 20);
    assert_eq!(out.into_raw(), vec![219, 244, 209, 204, 204, 204, 241, 210, 226, 204, 204, 204, 211, 229, 213, 210, 217, 227, 210, 245, 209, 76, 111, 173, 87, 170, 114, 255, 255, 255, 132, 205, 96, 210, 210, 225, 248, 236, 252, 235, 195, 167, 128, 128, 128, 255, 255, 255, 70, 167, 253, 250, 233, 211, 255, 255, 255, 186, 101, 251, 39, 160, 174, 254, 233, 35, 154, 244, 63, 204, 204, 204, 250, 233, 243, 195, 67, 240, 86, 252, 61, 145, 145, 145, 157, 157, 157, 245, 244, 255, 204, 204, 204, 232, 218, 248, 232, 246, 241, 243, 228, 219, 204, 204, 204, 255, 255, 255]);
}

#[test]
fn vignette_golden_heavy_circular_6x6() {
    let out = vignette::apply(rgb(6, 6, vec![77, 202, 24, 0, 0, 0, 187, 29, 109, 0, 0, 0, 35, 123, 46, 30, 63, 114, 31, 203, 25, 23, 68, 148, 60, 157, 92, 255, 255, 255, 96, 190, 49, 32, 30, 105, 218, 160, 238, 232, 185, 153, 128, 128, 128, 255, 255, 255, 41, 153, 253, 229, 147, 37, 255, 255, 255, 175, 77, 250, 39, 160, 174, 254, 233, 35, 138, 242, 33, 0, 0, 0, 228, 145, 197, 177, 11, 236, 59, 252, 30, 128, 128, 128, 128, 128, 128, 203, 200, 254, 0, 0, 0, 142, 70, 220, 142, 212, 183, 194, 118, 77, 0, 0, 0, 255, 255, 255]), -90, 10, 100, 70);
    assert_eq!(out.into_raw(), vec![8, 20, 2, 0, 0, 0, 19, 3, 11, 0, 0, 0, 4, 12, 5, 3, 6, 11, 3, 20, 3, 5, 13, 29, 30, 78, 46, 127, 127, 127, 19, 37, 10, 3, 3, 11, 22, 16, 24, 116, 92, 76, 123, 123, 123, 246, 246, 246, 20, 76, 126, 23, 15, 4, 26, 26, 26, 87, 38, 124, 38, 154, 168, 245, 224, 34, 69, 121, 16, 0, 0, 0, 23, 15, 20, 35, 2, 47, 29, 125, 15, 64, 64, 64, 25, 25, 25, 20, 20, 25, 0, 0, 0, 14, 7, 22, 14, 21, 18, 19, 12, 8, 0, 0, 0, 26, 26, 26]);
}

#[test]
fn vignette_golden_hard_edge_6x6() {
    let out = vignette::apply(rgb(6, 6, vec![77, 202, 24, 0, 0, 0, 187, 29, 109, 0, 0, 0, 35, 123, 46, 30, 63, 114, 31, 203, 25, 23, 68, 148, 60, 157, 92, 255, 255, 255, 96, 190, 49, 32, 30, 105, 218, 160, 238, 232, 185, 153, 128, 128, 128, 255, 255, 255, 41, 153, 253, 229, 147, 37, 255, 255, 255, 175, 77, 250, 39, 160, 174, 254, 233, 35, 138, 242, 33, 0, 0, 0, 228, 145, 197, 177, 11, 236, 59, 252, 30, 128, 128, 128, 128, 128, 128, 203, 200, 254, 0, 0, 0, 142, 70, 220, 142, 212, 183, 194, 118, 77, 0, 0, 0, 255, 255, 255]), -100, 40, 30, 0);
    assert_eq!(out.into_raw(), vec![0, 0, 0, 0, 0, 0, 0, 0, 0, 0, 0, 0, 0, 0, 0, 0, 0, 0, 0, 0, 0, 0, 0, 0, 60, 157, 92, 255, 255, 255, 0, 0, 0, 0, 0, 0, 0, 0, 0, 232, 185, 153, 128, 128, 128, 255, 255, 255, 41, 153, 253, 0, 0, 0, 0, 0, 0, 175, 77, 250, 39, 160, 174, 254, 233, 35, 138, 242, 33, 0, 0, 0, 0, 0, 0, 0, 0, 0, 59, 252, 30, 128, 128, 128, 0, 0, 0, 0, 0, 0, 0, 0, 0, 0, 0, 0, 0, 0, 0, 0, 0, 0, 0, 0, 0, 0, 0, 0]);
}

#[test]
fn vignette_golden_out_of_range_6x6() {
    let out = vignette::apply(rgb(6, 6, vec![77, 202, 24, 0, 0, 0, 187, 29, 109, 0, 0, 0, 35, 123, 46, 30, 63, 114, 31, 203, 25, 23, 68, 148, 60, 157, 92, 255, 255, 255, 96, 190, 49, 32, 30, 105, 218, 160, 238, 232, 185, 153, 128, 128, 128, 255, 255, 255, 41, 153, 253, 229, 147, 37, 255, 255, 255, 175, 77, 250, 39, 160, 174, 254, 233, 35, 138, 242, 33, 0, 0, 0, 228, 145, 197, 177, 11, 236, 59, 252, 30, 128, 128, 128, 128, 128, 128, 203, 200, 254, 0, 0, 0, 142, 70, 220, 142, 212, 183, 194, 118, 77, 0, 0, 0, 255, 255, 255]), -1000, 500, 400, 300);
    assert_eq!(out.into_raw(), vec![77, 202, 24, 0, 0, 0, 187, 29, 109, 0, 0, 0, 35, 123, 46, 30, 63, 114, 31, 203, 25, 23, 68, 148, 60, 157, 92, 255, 255, 255, 96, 190, 49, 32, 30, 105, 218, 160, 238, 232, 185, 153, 128, 128, 128, 255, 255, 255, 41, 153, 253, 229, 147, 37, 255, 255, 255, 175, 77, 250, 39, 160, 174, 254, 233, 35, 138, 242, 33, 0, 0, 0, 228, 145, 197, 177, 11, 236, 59, 252, 30, 128, 128, 128, 128, 128, 128, 203, 200, 254, 0, 0, 0, 142, 70, 220, 142, 212, 183, 194, 118, 77, 0, 0, 0, 255, 255, 255]);
}

#[test]
fn grain_hash_bits() {
    assert_eq!(grain::hash(0, 0, 42), 3732156569);
    assert_eq!(grain::hash(1, 0, 42), 3480967268);
    assert_eq!(grain::hash(0, 1, 137), 1243126815);
    assert_eq!(grain::hash(-1, -1, 251), 2184244973);
    assert_eq!(grain::hash(123456, 654321, 42), 318145202);
    assert_eq!(grain::hash(-53, 29, 251), 596978457);
}
