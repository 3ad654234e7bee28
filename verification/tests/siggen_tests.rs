use acl_offsetgen::decode;
use acl_offsetgen::siggen::find_relative_field;
use iced_x86::OpKind;

#[test]
fn locates_a_rel32_branch_field() {
    // E8 rel32: call from rva 0x1000, length 5, target 0x1100.
    let bytes = [0xE8, 0xFB, 0x00, 0x00, 0x00];
    let end = 0x1005i64;
    assert_eq!(find_relative_field(&bytes, 5, 4, end, 0x1100), Some(1));
}

#[test]
fn locates_a_rel8_branch_field() {
    // EB 10: jmp short from 0x2000, length 2, target 0x2012.
    let bytes = [0xEB, 0x10];
    assert_eq!(find_relative_field(&bytes, 2, 1, 0x2002, 0x2012), Some(1));
}

#[test]
fn reports_no_field_when_nothing_fits() {
    let bytes = [0x90, 0x90, 0x90, 0x90];
    assert_eq!(find_relative_field(&bytes, 4, 4, 0x1004, 0x9999), None);
}

#[test]
fn operand_kinds_have_the_numbers_of_the_disassembler() {
    assert_eq!(decode::REGISTER, OpKind::Register as u32);
    assert_eq!(decode::NEAR_BRANCH_16, OpKind::NearBranch16 as u32);
    assert_eq!(decode::NEAR_BRANCH_32, OpKind::NearBranch32 as u32);
    assert_eq!(decode::NEAR_BRANCH_64, OpKind::NearBranch64 as u32);
    assert_eq!(decode::IMMEDIATE_32, OpKind::Immediate32 as u32);
    assert_eq!(decode::MEMORY, OpKind::Memory as u32);
}
