use bytesize::align::align;
use bytesize::align::Alignment;
use bytesize::ByteSize;

#[test]
fn test_display_alignment() {
    let rendered = ByteSize(357).display().to_string();

    assert_eq!("|357 B     |", format!("|{}|", align(&rendered, 10, ' ', Alignment::Left)));
    assert_eq!("|     357 B|", format!("|{}|", align(&rendered, 10, ' ', Alignment::Right)));
    assert_eq!("|357 B     |", format!("|{}|", align(&rendered, 10, ' ', Alignment::Left)));
    assert_eq!("|  357 B   |", format!("|{}|", align(&rendered, 10, ' ', Alignment::Center)));

    assert_eq!("|-----357 B|", format!("|{}|", align(&rendered, 10, '-', Alignment::Right)));
    assert_eq!("|357 B-----|", format!("|{}|", align(&rendered, 10, '-', Alignment::Left)));
    assert_eq!("|--357 B---|", format!("|{}|", align(&rendered, 10, '-', Alignment::Center)));
}

#[test]
fn alignment_leaves_wide_text_alone() {
    assert_eq!("483.1 GiB", align("483.1 GiB", 4, ' ', Alignment::Center));
    assert_eq!("", align("", 0, '-', Alignment::Right));
}
