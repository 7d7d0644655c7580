use ltspice_raw::fields::split_fields;
use ltspice_raw::variables::read_variables;
use regex::Regex;

// On headers of the usual shape the fields are those that a regular
// expression finds: every field but the last fills one line, and the last
// begins with a bare name and runs through the closing line.

fn chars(text: &str) -> Vec<char> {
    text.chars().collect()
}

fn text(letters: &[char]) -> String {
    letters.iter().collect()
}

struct Dice(u64);

impl Dice {
    fn roll(&mut self, sides: usize) -> usize {
        self.0 = self.0.wrapping_mul(6_364_136_223_846_793_005).wrapping_add(1_442_695_040_888_963_407);
        ((self.0 >> 33) as usize) % sides
    }

    fn pick(&mut self, from: &str) -> char {
        let letters: Vec<char> = from.chars().collect();
        letters[self.roll(letters.len())]
    }

    fn word(&mut self, from: &str, least: usize, most: usize) -> String {
        let length: usize = least + self.roll(most - least + 1);
        (0..length).map(|_| self.pick(from)).collect()
    }
}

fn usual_header(dice: &mut Dice) -> String {
    let mut header = String::new();
    let fields: usize = dice.roll(8);
    for _ in 0..fields {
        header.push_str(&dice.word("abcXYZ .", 0, 6));
        header.push_str(&dice.word("abcXYZ", 1, 2));
        header.push(':');
        header.push_str(&dice.word("ab XY:.,()\t-+*0123456789\\/_", 1, 12));
        header.push('\n');
    }
    header.push_str("Variables:\n");
    let lines: usize = dice.roll(5);
    for index in 0..lines {
        header.push_str(&format!("\t{}\t{}\t{}\n", index, usual_name(dice), dice.word("abc_019", 1, 8)));
    }
    header.push_str("Binary:");
    header
}

fn usual_name(dice: &mut Dice) -> String {
    if dice.roll(4) == 0 {
        dice.word("abcdeft", 1, 6)
    } else {
        format!("{}({})", dice.word("VIx", 1, 2), dice.word("abcn012:+-/*_()", 1, 8))
    }
}

#[test]
fn fields_of_usual_headers_match_the_pattern() {
    let pattern =
        Regex::new(r"(?:^|\n)([a-zA-Z .]*[a-zA-Z]+):((?:.+)|(?:(?:.|\n)+(?:Binary:)))").unwrap();
    let mut dice = Dice(0x5EED);
    let mut fields_seen: usize = 0;
    for _ in 0..2_000 {
        let header = usual_header(&mut dice);
        let expected: Vec<(String, String)> = pattern
            .captures_iter(&header)
            .map(|found| (String::from(&found[1]), String::from(&found[2])))
            .collect();
        let fields: Vec<(String, String)> = split_fields(&chars(&header))
            .iter()
            .map(|field| (text(&field.name), text(&field.value)))
            .collect();
        assert_eq!(fields, expected, "{:?}", header);
        fields_seen += fields.len();
    }
    assert!(fields_seen > 6_000);
}

#[test]
fn variables_of_usual_headers_match_the_pattern() {
    let pattern = Regex::new(r"\s*(\d+)\s*([VIx]+\((?:.|:|\d)+\))\s*(\w+)\n").unwrap();
    let mut dice = Dice(0xFACE);
    let mut variables_seen: usize = 0;
    for _ in 0..2_000 {
        let header = usual_header(&mut dice);
        let fields = split_fields(&chars(&header));
        let value = text(&fields.last().unwrap().value);
        let expected: Vec<String> =
            pattern.captures_iter(&value).map(|found| String::from(&found[2])).collect();
        let names: Vec<String> =
            read_variables(&chars(&value)).into_iter().map(|variable| variable.name).collect();
        assert_eq!(names, expected, "{:?}", value);
        variables_seen += names.len();
    }
    assert!(variables_seen > 2_000);
}
