use vertretung::calendar::{read_caption_date, week_number};

#[test]
fn reads_caption_dates() {
    assert_eq!(read_caption_date("22.08.2022"), Some((2022, 8, 22)));
    assert_eq!(read_caption_date("01.09.2022"), Some((2022, 9, 1)));
    assert_eq!(read_caption_date("29.02.2024"), Some((2024, 2, 29)));
    assert_eq!(read_caption_date("29.02.2023"), None);
    assert_eq!(read_caption_date("31.04.2023"), None);
    assert_eq!(read_caption_date("Montag"), None);
    assert_eq!(read_caption_date(""), None);
}

#[test]
fn week_numbers_from_the_reference_date() {
    // the reference day itself and the rest of its week
    assert_eq!(week_number((2022, 8, 22)), 0);
    assert_eq!(week_number((2022, 8, 28)), 0);
    // one week later
    assert_eq!(week_number((2022, 8, 29)), 1);
    assert_eq!(week_number((2022, 9, 2)), 1);
    // two weeks later
    assert_eq!(week_number((2022, 9, 5)), 0);
    // 140 days later, across the turn of the year: 20 weeks
    assert_eq!(week_number((2023, 1, 9)), 0);
    // 147 days later: 21 weeks
    assert_eq!(week_number((2023, 1, 16)), 1);
    // before the reference date the count is negative and rounds to zero
    assert_eq!(week_number((2022, 8, 16)), 0);
    assert_eq!(week_number((2022, 8, 15)), -1);
    assert_eq!(week_number((2022, 8, 8)), 0);
}
