use acl_offsetgen::offsets::StructMember;
use acl_offsetgen::pe::Arch;

fn member(kind: &str, name: &str) -> StructMember {
    StructMember::value(kind, name)
}

#[test]
fn struct_padding_matches_the_reference_layout() {
    // Offsets from the real 2026.8.18 x86 dump of NetworkedPlayerInfo.
    // The expected output is byte-for-byte the hand-written V17.4.0 x86
    // struct, which is the strongest check available for this routine.
    let entries: Vec<(i64, &str, &str)> = vec![
        (40, "id", "UINT"),
        (64, "outfitsPtr", "UINT"),
        (68, "playerLevel", "UINT"),
        (72, "disconnected", "UINT"),
        (76, "rolePtr", "UINT"),
        (80, "taskPtr", "UINT"),
        (84, "dead", "BYTE"),
        (88, "objectPtr", "UINT"),
    ];
    let mut members = Vec::new();
    let mut cursor = 0i64;
    for (offset, name, kind) in entries {
        if offset > cursor {
            members.push(StructMember::padding(offset - cursor));
            cursor = offset;
        }
        let value = member(kind, name);
        cursor += value.size();
        members.push(value);
    }

    assert_eq!(members.len(), 11);
    assert_eq!(members[0], StructMember::padding(40));
    assert_eq!(members[1], member("UINT", "id"));
    assert_eq!(members[2], StructMember::padding(20));
    assert_eq!(members[8], member("BYTE", "dead"));
    assert_eq!(members[9], StructMember::padding(3));
    assert_eq!(members[10], member("UINT", "objectPtr"));
    assert_eq!(cursor, 92, "bufferLength should come out as 92 on x86");
}

#[test]
fn layout_constants_follow_pointer_size() {
    // Checked against both hand-written reference files.
    for (arch, header, list_size, array_data, hashset) in
        [(Arch::X86, 8, 12, 16, 16), (Arch::X64, 16, 24, 32, 32)]
    {
        let pointer = arch.pointer_size() as i64;
        assert_eq!(2 * pointer, header);
        assert_eq!(3 * pointer, list_size);
        assert_eq!(4 * pointer, array_data);
        assert_eq!(2 * pointer + 2 * pointer, hashset);
    }
}
