use audioserve::paths;

#[test]
fn test_trailing_slash() {
    let p1 = "kulisak";
    let p2 = paths::join(p1, "");
    assert!(paths::same_path(p1, &p2));
    assert_ne!(p1, p2);
    assert_eq!(p2, "kulisak/");
}

#[test]
fn test_bytes() {
    let v = vec![0, 0, 1, 112, 66, 198, 183, 124, 1, 0, 0, 1, 130, 10, 0, 0, 12, 0, 0, 0, 0, 0, 0, 0, 39, 0, 0, 0, 0, 0, 0, 0, 48, 49, 46, 32, 
        71, 117, 97, 110, 111, 32, 65, 112, 101, 115, 32, 45, 32, 89, 111, 117, 32, 67, 97, 110, 39, 116, 32, 83, 116, 111, 112, 32, 77, 101, 46, 102, 108, 
        97, 99, 96, 0, 0, 0, 0, 0, 0, 0, 71, 117, 97, 110, 111, 32, 65, 112, 101, 115, 47, 50, 48, 48, 51, 32, 45, 32, 87, 97, 108, 107, 105, 110, 103, 32, 79, 
        110, 32, 65, 32, 84, 104, 105, 110, 32, 76, 105, 110, 101, 32, 40, 56, 50, 56, 55, 54, 32, 53, 48, 55, 57, 50, 32, 50, 41, 47, 48, 49, 46, 32, 71, 117, 97, 
        110, 111, 32, 65, 112, 101, 115, 32, 45, 32, 89, 111, 117, 32, 67, 97, 110, 39, 116, 32, 83, 116, 111, 112, 32, 77, 101, 46, 102, 108, 97, 99, 1, 191, 0, 
        0, 0, 4, 4, 0, 0, 1, 1, 0, 0, 0, 0, 0, 0, 0, 5, 0, 0, 0, 0, 0, 0, 0, 84, 105, 116, 108, 101, 17, 0, 0, 0, 0, 0, 0, 0, 89, 111, 117, 32, 67, 97, 110, 39, 
        116, 32, 83, 116, 111, 112, 32, 77, 101, 10, 0, 0, 0, 0, 0, 0, 0, 97, 117, 100, 105, 111, 47, 102, 108, 97, 99, 0, 26, 0, 0, 0, 0, 0, 0, 0, 48, 50, 46, 32, 
        71, 117, 97, 110, 111, 32, 65, 112, 101, 115, 32, 45, 32, 68, 105, 99, 107, 46, 102, 108, 97, 99, 83, 0, 0, 0, 0, 0, 0, 0, 71, 117, 97, 110, 111, 32, 65, 
        112, 101, 115, 47, 50, 48, 48, 51, 32, 45, 32, 87, 97, 108, 107, 105, 110, 103, 32, 79, 110, 32, 65, 32, 84, 104, 105, 110, 32, 76, 105, 110, 101, 32, 40, 
        56, 50, 56, 55, 54, 32, 53, 48, 55, 57, 50, 32, 50, 41, 47, 48, 50, 46, 32, 71, 117, 97, 110, 111, 32, 65, 112, 101, 115, 32, 45, 32, 68, 105, 99, 107, 46, 
        102, 108, 97, 99, 1, 163, 0, 0, 0, 14, 4, 0, 0, 1, 1, 0, 0, 0, 0, 0, 0, 0, 5, 0, 0, 0, 0, 0, 0, 0, 84, 105, 116, 108, 101, 4, 0, 0, 0, 0, 0, 0, 0, 68, 105, 
        99, 107, 10, 0, 0, 0, 0, 0, 0, 0, 97, 117, 100, 105, 111, 47, 102, 108, 97, 99, 0, 35, 0, 0, 0, 0, 0, 0, 0, 48, 51, 46, 32, 71, 117, 97, 110, 111, 32, 65, 
        112, 101, 115, 32, 45, 32, 75, 105, 115, 115, 32, 84, 104, 101, 32, 68, 97, 119, 110, 46, 102, 108, 97, 99, 92, 0, 0, 0, 0, 0, 0, 0, 71, 117, 97, 110, 111, 
        32, 65, 112, 101, 115, 47, 50, 48, 48, 51, 32, 45, 32, 87, 97, 108, 107, 105, 110, 103, 32, 79, 110, 32, 65, 32, 84, 104, 105, 110, 32, 76, 105, 110, 101, 
        32, 40, 56, 50, 56, 55, 54, 32, 53, 48, 55, 57, 50, 32, 50, 41, 47, 48, 51, 46, 32, 71, 117, 97, 110, 111, 32, 65, 112, 101, 115, 32, 45, 32, 75, 105, 115, 
        115, 32, 84, 104, 101, 32, 68, 97, 119, 110, 46, 102, 108, 97, 99, 1, 64, 1, 0, 0, 154, 3, 0, 0, 1, 1, 0, 0, 0, 0, 0, 0, 0, 5, 0, 0, 0, 0, 0, 0, 0, 84, 105, 
        116, 108, 101, 13, 0, 0, 0, 0, 0, 0, 0, 75, 105, 115, 115, 32, 84, 104, 101, 32, 68, 97, 119, 110, 10, 0, 0, 0, 0, 0, 0, 0, 97, 117, 100, 105, 111, 47, 102, 
        108, 97, 99, 0, 39, 0, 0, 0, 0, 0, 0, 0, 48, 52, 46, 32, 71, 117, 97, 110, 111, 32, 65, 112, 101, 115, 32, 45, 32, 80, 114, 101, 116, 116, 121, 32, 73, 110, 
        32, 83, 99, 97, 114, 108, 101, 116, 46, 102, 108, 97, 99, 96, 0, 0, 0, 0, 0, 0, 0, 71, 117, 97, 110, 111, 32, 65, 112, 101, 115, 47, 50, 48, 48, 51, 32, 45, 
        32, 87, 97, 108, 107, 105, 110, 103, 32, 79, 110, 32, 65, 32, 84, 104, 105, 110, 32, 76, 105, 110, 101, 32, 40, 56, 50, 56, 55, 54, 32, 53, 48, 55, 57, 50, 
        32, 50, 41, 47, 48, 52, 46, 32, 71, 117, 97, 110, 111, 32, 65, 112, 101, 115, 32, 45, 32, 80, 114, 101, 116, 116, 121, 32, 73, 110, 32, 83, 99, 97, 114, 108, 
        101, 116, 46, 102, 108, 97, 99, 1, 246, 0, 0, 0, 223, 3, 0, 0, 1, 1, 0, 0, 0, 0, 0, 0, 0, 5, 0, 0, 0, 0, 0, 0, 0, 84, 105, 116, 108, 101, 17, 0, 0, 0, 0, 0, 
        0, 0, 80, 114, 101, 116, 116, 121, 32, 73, 110, 32, 83, 99, 97, 114, 108, 101, 116, 10, 0, 0, 0, 0, 0, 0, 0, 97, 117, 100, 105, 111, 47, 102, 108, 97, 99, 0, 
        29, 0, 0, 0, 0, 0, 0, 0, 48, 53, 46, 32, 71, 117, 97, 110, 111, 32, 65, 112, 101, 115, 32, 45, 32, 68, 105, 111, 107, 104, 97, 110, 46, 102, 108, 97, 99, 86, 
        0, 0, 0, 0, 0, 0, 0, 71, 117, 97, 110, 111, 32, 65, 112, 101, 115, 47, 50, 48, 48, 51, 32, 45, 32, 87, 97, 108, 107, 105, 110, 103, 32, 79, 110, 32, 65, 32, 
        84, 104, 105, 110, 32, 76, 105, 110, 101, 32, 40, 56, 50, 56, 55, 54, 32, 53, 48, 55, 57, 50, 32, 50, 41, 47, 48, 53, 46, 32, 71, 117, 97, 110, 111, 32, 65, 
        112, 101, 115, 32, 45, 32, 68, 105, 111, 107, 104, 97, 110, 46, 102, 108, 97, 99, 1, 214, 0, 0, 0, 243, 3, 0, 0, 1, 1, 0, 0, 0, 0, 0, 0, 0, 5, 0, 0, 0, 0, 0, 
        0, 0, 84, 105, 116, 108, 101, 7, 0, 0, 0, 0, 0, 0, 0, 68, 105, 111, 107, 104, 97, 110, 10, 0, 0, 0, 0, 0, 0, 0, 97, 117, 100, 105, 111, 47, 102, 108, 97, 99, 
        0, 29, 0, 0, 0, 0, 0, 0, 0, 48, 54, 46, 32, 71, 117, 97, 110, 111, 32, 65, 112, 101, 115, 32, 45, 32, 81, 117, 105, 101, 116, 108, 121, 46, 102, 108, 97, 99, 
        86, 0, 0, 0, 0, 0, 0, 0, 71, 117, 97, 110, 111, 32, 65, 112, 101, 115, 47, 50, 48, 48, 51, 32, 45, 32, 87, 97, 108, 107, 105, 110, 103, 32, 79, 110, 32, 65, 
        32, 84, 104, 105, 110, 32, 76, 105, 110, 101, 32, 40, 56, 50, 56, 55, 54, 32, 53, 48, 55, 57, 50, 32, 50, 41, 47, 48, 54, 46, 32, 71, 117, 97, 110, 111, 32, 
        65, 112, 101, 115, 32, 45, 32, 81, 117, 105, 101, 116, 108, 121, 46, 102, 108, 97, 99, 1, 218, 0, 0, 0, 208, 3, 0, 0, 1, 1, 0, 0, 0, 0, 0, 0, 0, 5, 0, 0, 0, 
        0, 0, 0, 0, 84, 105, 116, 108, 101, 7, 0, 0, 0, 0, 0, 0, 0, 81, 117, 105, 101, 116, 108, 121, 10, 0, 0, 0, 0, 0, 0, 0, 97, 117, 100, 105, 111, 47, 102, 108, 
        97, 99, 0, 26, 0, 0, 0, 0, 0, 0, 0, 48, 55, 46, 32, 71, 117, 97, 110, 111, 32, 65, 112, 101, 115, 32, 45, 32, 72, 105, 103, 104, 46, 102, 108, 97, 99, 83, 0, 
        0, 0, 0, 0, 0, 0, 71, 117, 97, 110, 111, 32, 65, 112, 101, 115, 47, 50, 48, 48, 51, 32, 45, 32, 87, 97, 108, 107, 105, 110, 103, 32, 79, 110, 32, 65, 32, 84, 
        104, 105, 110, 32, 76, 105, 110, 101, 32, 40, 56, 50, 56, 55, 54, 32, 53, 48, 55, 57, 50, 32, 50, 41, 47, 48, 55, 46, 32, 71, 117, 97, 110, 111, 32, 65, 112, 
        101, 115, 32, 45, 32, 72, 105, 103, 104, 46, 102, 108, 97, 99, 1, 204, 0, 0, 0, 236, 3, 0, 0, 1, 1, 0, 0, 0, 0, 0, 0, 0, 5, 0, 0, 0, 0, 0, 0, 0, 84, 105, 116, 
        108, 101, 4, 0, 0, 0, 0, 0, 0, 0, 72, 105, 103, 104, 10, 0, 0, 0, 0, 0, 0, 0, 97, 117, 100, 105, 111, 47, 102, 108, 97, 99, 0, 36, 0, 0, 0, 0, 0, 0, 0, 48, 56, 
        46, 32, 71, 117, 97, 110, 111, 32, 65, 112, 101, 115, 32, 45, 32, 83, 105, 110, 103, 32, 84, 104, 97, 116, 32, 83, 111, 110, 103, 46, 102, 108, 97, 99, 93, 0, 
        0, 0, 0, 0, 0, 0, 71, 117, 97, 110, 111, 32, 65, 112, 101, 115, 47, 50, 48, 48, 51, 32, 45, 32, 87, 97, 108, 107, 105, 110, 103, 32, 79, 110, 32, 65, 32, 84, 
        104, 105, 110, 32, 76, 105, 110, 101, 32, 40, 56, 50, 56, 55, 54, 32, 53, 48, 55, 57, 50, 32, 50, 41, 47, 48, 56, 46, 32, 71, 117, 97, 110, 111, 32, 65, 112, 
        101, 115, 32, 45, 32, 83, 105, 110, 103, 32, 84, 104, 97, 116, 32, 83, 111, 110, 103, 46, 102, 108, 97, 99, 1, 183, 0, 0, 0, 216, 3, 0, 0, 1, 1, 0, 0, 0, 0, 0, 
        0, 0, 5, 0, 0, 0, 0, 0, 0, 0, 84, 105, 116, 108, 101, 14, 0, 0, 0, 0, 0, 0, 0, 83, 105, 110, 103, 32, 84, 104, 97, 116, 32, 83, 111, 110, 103, 10, 0, 0, 0, 0, 
        0, 0, 0, 97, 117, 100, 105, 111, 47, 102, 108, 97, 99, 0, 39, 0, 0, 0, 0, 0, 0, 0, 48, 57, 46, 32, 71, 117, 97, 110, 111, 32, 65, 112, 101, 115, 32, 45, 32, 83, 
        99, 114, 97, 116, 99, 104, 32, 84, 104, 101, 32, 80, 105, 116, 99, 104, 46, 102, 108, 97, 99, 96, 0, 0, 0, 0, 0, 0, 0, 71, 117, 97, 110, 111, 32, 65, 112, 101, 
        115, 47, 50, 48, 48, 51, 32, 45, 32, 87, 97, 108, 107, 105, 110, 103, 32, 79, 110, 32, 65, 32, 84, 104, 105, 110, 32, 76, 105, 110, 101, 32, 40, 56, 50, 56, 55, 
        54, 32, 53, 48, 55, 57, 50, 32, 50, 41, 47, 48, 57, 46, 32, 71, 117, 97, 110, 111, 32, 65, 112, 101, 115, 32, 45, 32, 83, 99, 114, 97, 116, 99, 104, 32, 84, 104, 
        101, 32, 80, 105, 116, 99, 104, 46, 102, 108, 97, 99, 1, 227, 0, 0, 0, 233, 3, 0, 0, 1, 1, 0, 0, 0, 0, 0, 0, 0, 5, 0, 0, 0, 0, 0, 0, 0, 84, 105, 116, 108, 101,
         17, 0, 0, 0, 0, 0, 0, 0, 83, 99, 114, 97, 116, 99, 104, 32, 84, 104, 101, 32, 80, 105, 116, 99, 104, 10, 0, 0, 0, 0, 0, 0, 0, 97, 117, 100, 105, 111, 47, 102, 
         108, 97, 99, 0, 35, 0, 0, 0, 0, 0, 0, 0, 49, 48, 46, 32, 71, 117, 97, 110, 111, 32, 65, 112, 101, 115, 32, 45, 32, 80, 108, 97, 115, 116, 105, 99, 32, 77, 111, 
         117, 116, 104, 46, 102, 108, 97, 99, 92, 0, 0, 0, 0, 0, 0, 0, 71, 117, 97, 110, 111, 32, 65, 112, 101, 115, 47, 50, 48, 48, 51, 32, 45, 32, 87, 97, 108, 107, 
         105, 110, 103, 32, 79, 110, 32, 65, 32, 84, 104, 105, 110, 32, 76, 105, 110, 101, 32, 40, 56, 50, 56, 55, 54, 32, 53, 48, 55, 57, 50, 32, 50, 41, 47, 49, 48, 46, 
         32, 71, 117, 97, 110, 111, 32, 65, 112, 101, 115, 32, 45, 32, 80, 108, 97, 115, 116, 105, 99, 32, 77, 111, 117, 116, 104, 46, 102, 108, 97, 99, 1, 244, 0, 0, 0,
          199, 3, 0, 0, 1, 1, 0, 0, 0, 0, 0, 0, 0, 5, 0, 0, 0, 0, 0, 0, 0, 84, 105, 116, 108, 101, 13, 0, 0, 0, 0, 0, 0, 0, 80, 108, 97, 115, 116, 105, 99, 32, 77, 111, 117, 116, 104, 10, 0, 0, 0, 0, 0, 0, 0, 97, 117, 100, 105, 111, 47, 102, 108, 97, 99, 0, 27, 0, 0, 0, 0, 0, 0, 0, 49, 49, 46, 32, 71, 117, 97, 110, 111, 32, 65, 112, 101, 115, 32, 45, 32, 83, 116, 111, 114, 109, 46, 102, 108, 97, 99, 84, 0, 0, 0, 0, 0, 0, 0, 71, 117, 97, 110, 111, 32, 65, 112, 101, 115, 47, 50, 48, 48, 51, 32, 45, 32, 87, 97, 108, 107, 105, 110, 103, 32, 79, 110, 32, 65, 32, 84, 104, 105, 110, 32, 76, 105, 110, 101, 32, 40, 56, 50, 56, 55, 54, 32, 53, 48, 55, 57, 50, 32, 50, 41, 47, 49, 49, 46, 32, 71, 117, 97, 110, 111, 32, 65, 112, 101, 115, 32, 45, 32, 83, 116, 111, 114, 109, 46, 102, 108, 97, 99, 1, 227, 0, 0, 0, 240, 3, 0, 0, 1, 1, 0, 0, 0, 0, 0, 0, 0, 5, 0, 0, 0, 0, 0, 0, 0, 84, 105, 116, 108, 101, 5, 0, 0, 0, 0, 0, 0, 0, 83, 116, 111, 114, 109, 10, 0, 0, 0, 0, 0, 0, 0, 97, 117, 100, 105, 111, 47, 102, 108, 97, 99, 0, 32, 0, 0, 0, 0, 0, 0, 0, 49, 50, 46, 32, 71, 117, 97, 110, 111, 32, 65, 112, 101, 115, 32, 45, 32, 83, 117, 103, 97, 114, 32, 83, 107, 105, 110, 46, 102, 108, 97, 99, 89, 0, 0, 0, 0, 0, 0, 0, 71, 117, 97, 110, 111, 32, 65, 112, 101, 115, 47, 50, 48, 48, 51, 32, 45, 32, 87, 97, 108, 107, 105, 110, 103, 32, 79, 110, 32, 65, 32, 84, 104, 105, 110, 32, 76, 105, 110, 101, 32, 40, 56, 50, 56, 55, 54, 32, 53, 48, 55, 57, 50, 32, 50, 41, 47, 49, 50, 46, 32, 71, 117, 97, 110, 111, 32, 65, 112, 101, 115, 32, 45, 32, 83, 117, 103, 97, 114, 32, 83, 107, 105, 110, 46, 102, 108, 97, 99, 1, 253, 0, 0, 0, 235, 3, 0, 0, 1, 1, 0, 0, 0, 0, 0, 0, 0, 5, 0, 0, 0, 0, 0, 0, 0, 84, 105, 116, 108, 101, 10, 0, 0, 0, 0, 0, 0, 0, 83, 117, 103, 97, 114, 32, 83, 107, 105, 110, 10, 0, 0, 0, 0, 0, 0, 0, 97, 117, 100, 105, 111, 47, 102, 108, 97, 99, 0, 1, 0, 0, 0, 0, 0, 0, 0, 6, 0, 0, 0, 0, 0, 0, 0, 67, 111, 118, 101, 114, 115, 1, 73, 167, 96, 157, 105, 1, 0, 0, 63, 0, 0, 0, 0, 0, 0, 0, 71, 117, 97, 110, 111, 32, 65, 112, 101, 115, 47, 50, 48, 48, 51, 32, 45, 32, 87, 97, 108, 107, 105, 110, 103, 32, 79, 110, 32, 65, 32, 84, 104, 105, 110, 32, 76, 105, 110, 101, 32, 40, 56, 50, 56, 55, 54, 32, 53, 48, 55, 57, 50, 32, 50, 41, 47, 67, 111, 118, 101, 114, 115, 0, 0, 1, 67, 0, 0, 0, 0, 0, 0, 0, 71, 117, 97, 110, 111, 32, 65, 112, 101, 115, 47, 50, 48, 48, 51, 32, 45, 32, 87, 97, 108, 107, 105, 110, 103, 32, 79, 110, 32, 65, 32, 84, 104, 105, 110, 32, 76, 105, 110, 101, 32, 40, 56, 50, 56, 55, 54, 32, 53, 48, 55, 57, 50, 32, 50, 41, 47, 102, 111, 108, 100, 101, 114, 46, 106, 112, 103, 10, 0, 0, 0, 0, 0, 0, 0, 105, 109, 97, 103, 101, 47, 106, 112, 101, 103, 1, 96, 0, 0, 0, 0, 0, 0, 0, 71, 117, 97, 110, 111, 32, 65, 112, 101, 115, 47, 50, 48, 48, 51, 32, 45, 32, 87, 97, 108, 107, 105, 110, 103, 32, 79, 110, 32, 65, 32, 84, 104, 105, 110, 32, 76, 105, 110, 101, 32, 40, 56, 50, 56, 55, 54, 32, 53, 48, 55, 57, 50, 32, 50, 41, 47, 71, 117, 97, 110, 111, 32, 65, 112, 101, 115, 32, 45, 32, 87, 97, 108, 107, 105, 110, 103, 32, 79, 110, 32, 65, 32, 84, 104, 105, 110, 32, 76, 105, 110, 101, 46, 108, 111, 103, 10, 0, 0, 0, 0, 0, 0, 0, 116, 101, 120, 116, 47, 112, 108, 97, 105, 110, 1, 3, 0, 0, 0, 0, 0, 0, 0, 5, 0, 0, 0, 0, 0, 0, 0, 71, 101, 110, 114, 101, 4, 0, 0, 0, 0, 0, 0, 0, 82, 111, 99, 107, 6, 0, 0, 0, 0, 0, 0, 0, 65, 114, 116, 105, 115, 116, 10, 0, 0, 0, 0, 0, 0, 0, 71, 117, 97, 110, 111, 32, 65, 112, 101, 115, 4, 0, 0, 0, 0, 0, 0, 0, 89, 101, 97, 114, 4, 0, 0, 0, 0, 0, 0, 0, 78, 111, 110, 101];
    let s = String::from_utf8_lossy(&v);
    println!("str: {}", s);
}
