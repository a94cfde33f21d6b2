use snipperclipper::lang::Language;

#[test]
fn fixed_mapping() {
    assert_eq!(Language::classify("go"), Language::Go);
    assert_eq!(Language::classify("rs"), Language::Rust);
    assert_eq!(Language::classify("py"), Language::Python);
    assert_eq!(Language::classify("c"), Language::C);
    assert_eq!(Language::classify("sh"), Language::Bash);
    assert_eq!(Language::classify("cpp"), Language::Cpp);
    assert_eq!(Language::classify("java"), Language::Java);
}

#[test]
fn matching_is_case_insensitive() {
    assert_eq!(Language::classify("GO"), Language::Go);
    assert_eq!(Language::classify("Rs"), Language::Rust);
    assert_eq!(Language::classify("pY"), Language::Python);
    assert_eq!(Language::classify("C"), Language::C);
    assert_eq!(Language::classify("SH"), Language::Bash);
    assert_eq!(Language::classify("CpP"), Language::Cpp);
    assert_eq!(Language::classify("JAVA"), Language::Java);
}

#[test]
fn unmatched_tokens_fall_back() {
    assert_eq!(Language::classify(""), Language::Miscellaneous);
    assert_eq!(Language::classify("exe"), Language::Miscellaneous);
    assert_eq!(Language::classify("golang"), Language::Miscellaneous);
    assert_eq!(Language::classify("g"), Language::Miscellaneous);
    assert_eq!(Language::classify("c++"), Language::Miscellaneous);
}

#[test]
fn tag_strings_are_fixed() {
    let tag: String = Language::Cpp.tag_chars().into_iter().collect();
    assert_eq!(tag, "Cpp");
    let tag: String = Language::Miscellaneous.tag_chars().into_iter().collect();
    assert_eq!(tag, "Miscellaneous");
}
