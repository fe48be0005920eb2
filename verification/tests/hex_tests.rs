//! Reading datagram bytes out of packet-capture hex dumps.

#[test]
fn test_from_wire_shark() {
    let string = "
0020   00 00 00 00 00 05
0030   00 00 00 00 00 01 08 5f 68 6f 6d 65 6b 69 74 04
0040   5f 74 63 70 05 6c 6f 63 61 6c 00 00 0c 80 01 0f
0050   5f 63 6f 6d 70 61 6e 69 6f 6e 2d 6c 69 6e 6b c0
0060   15 00 0c 80 01 08 5f 61 69 72 70 6c 61 79 c0 15
0070   00 0c 80 01 05 5f 72 61 6f 70 c0 15 00 0c 80 01
0080   0c 5f 73 6c 65 65 70 2d 70 72 6f 78 79 04 5f 75
0090   64 70 c0 1a 00 0c 80 01 00 00 29 05 a0 00 00 11
00a0   94 00 12 00 04 00 0e 00 e4 76 42 8b ec 99 88 74
00b0   42 8b ec 99 88

"
    .to_owned();

    let result = rdns::hex::from_wire_shark(string);
    println!("result: {:?} - {:?}", result.len(), result);
}

#[test]
fn from_wire_shark_reads_each_pair() {
    let string = "0000   0a ff 10\n0010   00 01".to_owned();
    let result = rdns::hex::from_wire_shark(string);
    assert_eq!(vec![0x0au8, 0xff, 0x10, 0x00, 0x01], result);
}

#[test]
fn from_wire_shark_empty_input() {
    let result = rdns::hex::from_wire_shark(String::new());
    assert_eq!(Vec::<u8>::new(), result);
}
