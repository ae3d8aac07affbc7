//! Dictionary images with every table, of both versions.

use sakura_core::dictionary::image_format;
use sakura_core::dictionary::{
    DetailRelationKind, Dictionary, EntryFlags, Error, SingleKanjiVariantKind,
};
use sakura_core::values::FixedStr;

struct TableBytes {
    tag: [u8; 4],
    bytes: Vec<u8>,
    count: usize,
}

fn table(tag: [u8; 4], bytes: Vec<u8>, count: usize) -> TableBytes {
    TableBytes { tag, bytes, count }
}

fn u16s(values: &[u16]) -> Vec<u8> {
    values.iter().flat_map(|value| value.to_le_bytes()).collect()
}

fn u32s(values: &[u32]) -> Vec<u8> {
    values.iter().flat_map(|value| value.to_le_bytes()).collect()
}

/// Texts one after the other, and where each starts.
fn texts(values: &[&str]) -> (Vec<u8>, Vec<u8>) {
    let mut offsets = Vec::new();
    let mut data = Vec::new();
    for value in values {
        offsets.extend_from_slice(&u32s(&[data.len() as u32]));
        data.extend_from_slice(value.as_bytes());
    }
    (offsets, data)
}

fn surface_record(prefix: u16, suffix: &str) -> Vec<u8> {
    let mut record = u16s(&[prefix, suffix.len() as u16]);
    record.extend_from_slice(suffix.as_bytes());
    record
}

/// か has two entries, かく one, and き none.
const NODES: [(u32, u16, u16, u32, char); 4] = [
    (1, 2, 0, 0, '\0'),
    (3, 1, 2, 0, 'か'),
    (0, 0, 0, 2, 'き'),
    (0, 0, 1, 2, 'く'),
];

fn matrix() -> TableBytes {
    let mut bytes = image_format::MATRIX_MAGIC.to_vec();
    bytes.extend(u16s(&[2, 0]));
    bytes.extend(u32s(&[1, 0]));
    bytes.extend(u16s(&[100, 200]));
    bytes.extend(u32s(&[0, 1, 1, 0]));
    bytes.extend(u16s(&[1, 150]));
    table(image_format::TAG_MATRIX, bytes, 2)
}

fn boundaries() -> TableBytes {
    let mut bytes = image_format::BOUNDARY_MAGIC.to_vec();
    bytes.extend(u16s(&[2, 0]));
    bytes.extend([0b11, 0b01]);
    table(image_format::TAG_BOUNDARIES, bytes, 2)
}

fn details() -> Vec<TableBytes> {
    let (offsets, text) = texts(&["説明文", "短い説明", "した", "うえ"]);
    let mut relations = vec![1, 0, 0, 0];
    relations.extend(u32s(&[2]));
    relations.extend([4, 0, 0, 0]);
    relations.extend(u32s(&[3]));
    vec![
        table(image_format::TAG_DETAIL_INDEX, u32s(&[0, 0]), 1),
        table(image_format::TAG_DETAIL_RECORDS, u32s(&[0, 1, 0, 2]), 1),
        table(image_format::TAG_DETAIL_RELATIONS, relations, 2),
        table(image_format::TAG_DETAIL_TEXT_OFFSETS, offsets, 4),
        table(image_format::TAG_DETAIL_TEXT, text, 4),
    ]
}

fn single_kanji() -> Vec<TableBytes> {
    let mut index = u32s(&[0, 0]);
    index.extend(u16s(&[3, 2]));
    index.extend(u32s(&[3, 2]));
    index.extend(u16s(&[3, 1]));
    let mut variants = u32s(&['髙' as u32, '高' as u32]);
    variants.extend([1, 0, 0, 0]);
    vec![
        table(image_format::TAG_SINGLE_KANJI_INDEX, index, 2),
        table(image_format::TAG_SINGLE_KANJI_READINGS, "かき".as_bytes().to_vec(), 6),
        table(
            image_format::TAG_SINGLE_KANJI_CHARS,
            u32s(&['可' as u32, '蚊' as u32, '木' as u32]),
            3,
        ),
        table(image_format::TAG_SINGLE_KANJI_VARIANTS, variants, 1),
    ]
}

fn louds() -> TableBytes {
    let mut bytes = u32s(&[7]);
    bytes.push(0b0000_1011);
    table(image_format::TAG_LOUDS, bytes, 7)
}

/// The tables of an image without the optional ones.
fn tables(version: u16) -> Vec<TableBytes> {
    let mut nodes = Vec::new();
    let mut labels = Vec::new();
    for (first_child, child_count, value_count, value_start, label) in NODES {
        nodes.extend(u32s(&[first_child]));
        nodes.extend(u16s(&[child_count, value_count]));
        nodes.extend(u32s(&[value_start, if version == 2 { label as u32 } else { 0 }]));
        labels.extend(u32s(&[label as u32]));
    }
    let (annotation_offsets, annotations) = texts(&["虫"]);
    let mut all = vec![louds(), table(image_format::TAG_NODES, nodes, 4)];
    if version == 1 {
        all.push(table(image_format::TAG_LABELS, labels, 4));
        let mut entries = Vec::new();
        for (surface, left, right, cost, prediction, flags, annotation) in [
            (0u32, 0u16, 1u16, 10u32, 5u32, 2u16, image_format::NO_ANNOTATION),
            (1, 1, 0, 20, i32::MAX as u32, 1, 0),
            (2, 1, 1, 30, 7, 2, image_format::NO_ANNOTATION),
        ] {
            entries.extend(u32s(&[surface]));
            entries.extend(u16s(&[left, right]));
            entries.extend(u32s(&[cost, prediction]));
            entries.extend(u16s(&[flags, 0]));
            entries.extend(u32s(&[annotation]));
        }
        all.push(table(image_format::TAG_ENTRIES, entries, 3));
        let records = [
            surface_record(0, "下"),
            surface_record(0, "蚊"),
            surface_record(3, "蚊"),
        ];
        let mut offsets = Vec::new();
        let mut data = Vec::new();
        for record in records {
            offsets.extend(u32s(&[data.len() as u32]));
            data.extend(record);
        }
        all.push(table(image_format::TAG_SURFACE_OFFSETS, offsets, 3));
        all.push(table(image_format::TAG_SURFACES, data, 3));
    } else {
        let mut entries = Vec::new();
        for (surface, left, right, cost, prediction, flags) in [
            (0u32, 0u16, 1u16, 10u16, 5u16, 2u16),
            (1, 1, 0, 20, u16::MAX, 1),
            (2, 1, 1, 30, 7, 2),
        ] {
            entries.extend(u32s(&[surface]));
            entries.extend(u16s(&[left, right, cost, prediction, flags, 0]));
        }
        all.push(table(image_format::TAG_ENTRIES, entries, 3));
        let mut data = surface_record(0, "下");
        data.extend(surface_record(0, "蚊"));
        data.extend(surface_record(3, "蚊"));
        all.push(table(image_format::TAG_SURFACE_OFFSETS, u32s(&[0]), 1));
        all.push(table(image_format::TAG_SURFACES, data, 3));
        all.push(table(image_format::TAG_ANNOTATION_INDEX, u32s(&[1, 0]), 1));
    }
    all.push(table(image_format::TAG_ANNOTATION_OFFSETS, annotation_offsets, 1));
    all.push(table(image_format::TAG_ANNOTATIONS, annotations, 1));
    all.push(matrix());
    all
}

fn assemble(version: u16, tables: &[TableBytes]) -> Vec<u8> {
    let mut image =
        vec![0; image_format::HEADER_LEN + tables.len() * image_format::DIRECTORY_ENTRY_LEN];
    for (index, table) in tables.iter().enumerate() {
        while image.len() % 8 != 0 {
            image.push(0);
        }
        let at = image_format::HEADER_LEN + index * image_format::DIRECTORY_ENTRY_LEN;
        let offset = image.len();
        image[at..at + 4].copy_from_slice(&table.tag);
        image[at + 4..at + 16].copy_from_slice(&u32s(&[
            offset as u32,
            table.bytes.len() as u32,
            table.count as u32,
        ]));
        image.extend_from_slice(&table.bytes);
    }
    let length = image.len() as u32;
    image[..8].copy_from_slice(&image_format::MAGIC);
    image[8..16].copy_from_slice(&u16s(&[
        version,
        image_format::HEADER_LEN as u16,
        tables.len() as u16,
        2,
    ]));
    image[16..32].copy_from_slice(&u32s(&[3, 4, length, 0]));
    image
}

fn full(version: u16) -> Vec<u8> {
    let mut all = tables(version);
    all.push(boundaries());
    all.extend(details());
    all.extend(single_kanji());
    assemble(version, &all)
}

/// An image with one table changed.
fn with_table(version: u16, tag: [u8; 4], change: fn(&mut TableBytes)) -> Vec<u8> {
    let mut all = tables(version);
    all.push(boundaries());
    all.extend(details());
    all.extend(single_kanji());
    for table in all.iter_mut() {
        if table.tag == tag {
            change(table);
        }
    }
    assemble(version, &all)
}

fn fault(image: &[u8]) -> Error {
    Dictionary::parse(image).expect_err("the image must be refused")
}

fn surface_at(dictionary: &Dictionary<'_>, index: usize) -> String {
    let mut surface = String::new();
    let entry = dictionary.entry_at(index).expect("entry");
    dictionary.write_surface(entry, &mut surface).expect("surface");
    surface
}

#[test]
fn both_versions_hold_the_same_words() {
    for version in [1, 2] {
        let image = full(version);
        let dictionary = Dictionary::parse(&image).expect("valid image");
        assert_eq!(dictionary.class_count(), 2);
        assert_eq!(dictionary.entry_count(), 3);
        assert_eq!(dictionary.node_count(), 4);
        assert_eq!(surface_at(&dictionary, 0), "下");
        assert_eq!(surface_at(&dictionary, 1), "蚊");
        assert_eq!(surface_at(&dictionary, 2), "蚊蚊");
        assert_eq!(dictionary.entry_at(3), Err(Error::BadEntry));
        let entry = dictionary.entry_at(1).expect("entry");
        assert_eq!((entry.left_id, entry.right_id), (1, 0));
        assert_eq!((entry.word_cost, entry.prediction_cost), (20, i32::MAX));
        assert!(entry.flags.contains(EntryFlags::it()));
        assert!(!entry.flags.contains(EntryFlags::prediction()));
        for (index, expected) in [(0, ""), (1, "虫"), (2, "")] {
            let mut annotation = String::new();
            let entry = dictionary.entry_at(index).expect("entry");
            dictionary
                .write_annotation(entry, &mut annotation)
                .expect("annotation");
            assert_eq!(annotation, expected);
        }
    }
}

#[test]
fn a_full_sink_refuses_a_surface_whole() {
    let image = full(2);
    let dictionary = Dictionary::parse(&image).expect("valid image");
    let mut surface = FixedStr::<5>::new();
    let entry = dictionary.entry_at(2).expect("entry");
    assert_eq!(
        dictionary.write_surface(entry, &mut surface),
        Err(Error::TextOverflow)
    );
    assert!(surface.is_empty());
}

#[test]
fn prefixes_are_found_shorter_ones_first() {
    for version in [1, 2] {
        let image = full(version);
        let dictionary = Dictionary::parse(&image).expect("valid image");
        let found = dictionary.common_prefix_search("かくも").expect("lookup");
        let spans: Vec<(usize, usize)> = found
            .iter()
            .map(|matched| (matched.matched_bytes, matched.entry_index))
            .collect();
        assert_eq!(spans, vec![(3, 0), (3, 1), (6, 2)]);
        assert!(dictionary.common_prefix_search("き").expect("lookup").is_empty());
        assert!(dictionary.common_prefix_search("も").expect("lookup").is_empty());
        assert!(dictionary.common_prefix_search("").expect("lookup").is_empty());
    }
}

#[test]
fn connections_cost_what_the_row_or_its_override_says() {
    let image = full(2);
    let dictionary = Dictionary::parse(&image).expect("valid image");
    assert_eq!(dictionary.connection_cost(0, 0), Some(100));
    assert_eq!(dictionary.connection_cost(0, 1), Some(150));
    assert_eq!(dictionary.connection_cost(1, 0), Some(200));
    assert_eq!(dictionary.connection_cost(1, 1), Some(200));
    assert_eq!(dictionary.connection_cost(2, 0), None);
    assert_eq!(dictionary.connection_cost(0, 2), None);
    assert_eq!(dictionary.matrix_bytes_len(), 40);
}

#[test]
fn boundaries_separate_all_but_what_the_table_joins() {
    let image = full(2);
    let dictionary = Dictionary::parse(&image).expect("valid image");
    assert!(dictionary.has_bunsetsu_boundaries());
    assert_eq!(dictionary.bunsetsu_boundary(1, 1), Some(false));
    assert_eq!(dictionary.bunsetsu_boundary(0, 1), Some(true));
    assert_eq!(dictionary.bunsetsu_boundary(1, 0), Some(true));
    assert_eq!(dictionary.bunsetsu_boundary(2, 1), Some(true));
    assert_eq!(dictionary.bunsetsu_boundary(1, 9), Some(true));

    let plain = assemble(2, &tables(2));
    let dictionary = Dictionary::parse(&plain).expect("valid image");
    assert!(!dictionary.has_bunsetsu_boundaries());
    assert_eq!(dictionary.bunsetsu_boundary(1, 1), None);
}

#[test]
fn details_describe_one_entry() {
    for version in [1, 2] {
        let image = full(version);
        let dictionary = Dictionary::parse(&image).expect("valid image");
        let detail = dictionary
            .detail_at(0)
            .expect("in range")
            .expect("described");
        let mut description = String::new();
        detail.write_description(&mut description).expect("text");
        assert_eq!(description, "説明文");
        let mut display = String::new();
        detail.write_display_description(&mut display).expect("text");
        assert_eq!(display, "短い説明");
        let relations = detail.visit_relations().expect("relations");
        assert_eq!(
            relations,
            vec![
                (DetailRelationKind::Alias, "した"),
                (DetailRelationKind::Antonym, "うえ")
            ]
        );
        assert!(dictionary.detail_at(1).expect("in range").is_none());
        assert_eq!(dictionary.detail_at(3).map(|_| ()), Err(Error::BadEntry));
    }
    let plain = assemble(2, &tables(2));
    let dictionary = Dictionary::parse(&plain).expect("valid image");
    assert!(dictionary.detail_at(9).expect("no details").is_none());
}

#[test]
fn a_preview_ends_between_two_characters() {
    let image = full(2);
    let dictionary = Dictionary::parse(&image).expect("valid image");
    let detail = dictionary
        .detail_at(0)
        .expect("in range")
        .expect("described");
    for (maximum, expected, more) in [
        (0, "", true),
        (2, "", true),
        (4, "説", true),
        (6, "説明", true),
        (9, "説明文", false),
        (99, "説明文", false),
    ] {
        let mut preview = FixedStr::<32>::new();
        assert_eq!(
            detail.write_description_preview(&mut preview, maximum),
            Ok(more)
        );
        assert_eq!(preview.as_str(), expected);
    }
    let mut small = FixedStr::<7>::new();
    small.push_str("x").expect("fits");
    assert_eq!(detail.write_description_preview(&mut small, 99), Ok(true));
    assert_eq!(small.as_str(), "x説明");
}

#[test]
fn single_kanji_come_in_the_order_of_the_table() {
    let image = full(2);
    let dictionary = Dictionary::parse(&image).expect("valid image");
    assert!(dictionary.has_single_kanji());
    assert_eq!(dictionary.single_kanji("か"), vec!['可', '蚊']);
    assert_eq!(dictionary.single_kanji_count("か"), 2);
    assert_eq!(dictionary.single_kanji("き"), vec!['木']);
    assert!(dictionary.single_kanji("く").is_empty());
    assert_eq!(dictionary.single_kanji_count("く"), 0);
    let variant = dictionary.single_kanji_variant('髙').expect("a variant");
    assert_eq!(variant.original, '高');
    assert_eq!(variant.kind, SingleKanjiVariantKind::Itaiji);
    assert_eq!(variant.kind.label(), "異体字");
    assert!(dictionary.single_kanji_variant('木').is_none());

    let plain = assemble(2, &tables(2));
    let dictionary = Dictionary::parse(&plain).expect("valid image");
    assert!(!dictionary.has_single_kanji());
    assert!(dictionary.single_kanji("か").is_empty());
    assert!(dictionary.single_kanji_variant('髙').is_none());
}

#[test]
fn variant_kinds_have_their_own_codes() {
    for code in 0..=u8::MAX {
        match SingleKanjiVariantKind::from_code(code) {
            Some(kind) => assert_eq!(kind.code(), code),
            None => assert!(code == 0 || code > 9),
        }
    }
}

#[test]
fn walks_pass_on_every_entry_with_its_reading() {
    for version in [1, 2] {
        let image = full(version);
        let dictionary = Dictionary::parse(&image).expect("valid image");
        let walk = dictionary.visit_entries(99);
        assert!(walk.end.is_ok());
        let visits: Vec<(&str, usize)> = walk
            .visits
            .iter()
            .map(|visit| (visit.reading.as_str(), visit.entry_index))
            .collect();
        assert_eq!(visits, vec![("か", 0), ("か", 1), ("かく", 2)]);
        for visit in &walk.visits {
            let found = dictionary
                .common_prefix_search(&visit.reading)
                .expect("lookup");
            assert!(found.iter().any(|matched| {
                matched.matched_bytes == visit.reading.len()
                    && matched.entry_index == visit.entry_index
                    && matched.entry == visit.entry
            }));
        }
        let first = dictionary.visit_entries(1);
        assert_eq!(first.visits.len(), 1);
        assert!(first.end.is_ok());

        let predictions = dictionary.visit_indexed_prediction_entries(99);
        let indexes: Vec<usize> = predictions
            .visits
            .iter()
            .map(|visit| visit.entry_index)
            .collect();
        assert_eq!(indexes, vec![0, 2]);
        assert_eq!(dictionary.visit_prediction_entries(99).visits.len(), 2);
    }
}

#[test]
fn descendants_are_below_the_prefix() {
    let image = full(2);
    let dictionary = Dictionary::parse(&image).expect("valid image");
    let below = dictionary.visit_descendant_entries("か", 99, 99);
    assert!(below.end.is_ok());
    assert_eq!(below.entries, vec![dictionary.entry_at(2).expect("entry")]);
    assert_eq!(
        dictionary.visit_descendant_entries("", 99, 99).entries.len(),
        3
    );
    assert_eq!(
        dictionary.visit_descendant_entries("", 1, 99).entries.len(),
        2
    );
    assert_eq!(
        dictionary.visit_descendant_entries("", 99, 1).entries.len(),
        1
    );
    assert!(dictionary
        .visit_descendant_entries("", 0, 99)
        .entries
        .is_empty());
    assert!(dictionary
        .visit_descendant_entries("も", 99, 99)
        .entries
        .is_empty());
}

#[test]
fn every_truncated_image_is_refused() {
    for version in [1, 2] {
        let image = full(version);
        for end in 0..image.len() {
            let expected = if end < 32 { Error::Truncated } else { Error::BadHeader };
            assert_eq!(fault(&image[..end]), expected, "{end}");
        }
    }
}

#[test]
fn every_extended_image_is_refused() {
    for version in [1, 2] {
        for more in 1..40 {
            let mut image = full(version);
            image.extend(vec![0; more]);
            assert_eq!(fault(&image), Error::BadHeader, "{more}");
        }
    }
}

#[test]
fn searches_find_what_the_walk_passes_on() {
    for version in [1, 2] {
        let image = full(version);
        let dictionary = Dictionary::parse(&image).expect("valid image");
        let walk = dictionary.visit_entries(99);
        assert!(walk.end.is_ok());
        for pair in walk.visits.windows(2) {
            assert!(pair[0].reading.as_bytes() <= pair[1].reading.as_bytes());
        }
        for query in ["", "か", "かく", "かくも", "かも", "も"] {
            let found: Vec<(usize, usize)> = dictionary
                .common_prefix_search(query)
                .expect("lookup")
                .iter()
                .map(|m| (m.matched_bytes, m.entry_index))
                .collect();
            let picked: Vec<(usize, usize)> = walk
                .visits
                .iter()
                .filter(|visit| !visit.reading.is_empty() && query.starts_with(&visit.reading))
                .map(|visit| (visit.reading.len(), visit.entry_index))
                .collect();
            assert_eq!(found, picked, "{query}");
            assert!(found.windows(2).all(|pair| pair[0].0 <= pair[1].0));

            let behind: Vec<_> = walk
                .visits
                .iter()
                .filter(|visit| {
                    visit.reading.len() > query.len() && visit.reading.starts_with(query)
                })
                .map(|visit| visit.entry)
                .collect();
            for nodes in 0..5 {
                for entries in 0..5 {
                    let below = dictionary.visit_descendant_entries(query, nodes, entries);
                    assert!(below.end.is_ok());
                    assert!(below.entries.len() <= entries);
                    assert_eq!(below.entries[..], behind[..below.entries.len()]);
                    if nodes == 0 {
                        assert!(below.entries.is_empty());
                    }
                    if nodes >= 2 {
                        assert_eq!(below.entries.len(), behind.len().min(entries));
                    }
                }
            }
        }
        let predictions: Vec<(String, usize)> = dictionary
            .visit_prediction_entries(99)
            .visits
            .into_iter()
            .map(|visit| (visit.reading, visit.entry_index))
            .collect();
        let picked: Vec<(String, usize)> = walk
            .visits
            .iter()
            .filter(|visit| {
                visit.entry.flags.contains(EntryFlags::prediction())
                    && visit.entry.prediction_cost != i32::MAX
            })
            .map(|visit| (visit.reading.clone(), visit.entry_index))
            .collect();
        assert_eq!(predictions, picked);
    }
}

#[test]
fn headers_and_directories_are_checked() {
    let good = full(2);
    assert_eq!(fault(&good[..31]), Error::Truncated);
    let mut image = good.clone();
    image[0] = b'X';
    assert_eq!(fault(&image), Error::BadMagic);
    let mut image = good.clone();
    image[8] = 7;
    assert_eq!(fault(&image), Error::UnsupportedVersion(7));
    for (at, value) in [(10, 33), (12, 0), (12, 65), (14, 0), (20, 0), (24, 0), (28, 1)] {
        let mut image = good.clone();
        image[at] = value;
        if at == 24 {
            image[25] ^= 1;
        }
        assert_eq!(fault(&image), Error::BadHeader, "byte {at}");
    }
    let mut image = good.clone();
    image[36] = image[36].wrapping_add(1);
    assert_eq!(fault(&image), Error::BadDirectory);
    let mut image = good.clone();
    image.splice(32..36, *b"NODE");
    assert_eq!(fault(&image), Error::DuplicateTable(image_format::TAG_NODES));
    let mut image = good;
    image.splice(32..36, *b"????");
    assert_eq!(fault(&image), Error::MissingTable(image_format::TAG_LOUDS));
}

#[test]
fn faults_of_tables_are_named() {
    let cases: [([u8; 4], fn(&mut TableBytes), Error); 16] = [
        (
            image_format::TAG_LOUDS,
            |t| t.bytes[4] = 0b0000_0111,
            Error::BadTree,
        ),
        (
            image_format::TAG_LOUDS,
            |t| t.bytes[4] = 0b1000_1011,
            Error::BadTree,
        ),
        (
            image_format::TAG_LOUDS,
            |t| t.count = 6,
            Error::BadTable(image_format::TAG_LOUDS),
        ),
        (
            image_format::TAG_NODES,
            |t| t.bytes[8] = 9,
            Error::BadTree,
        ),
        (
            image_format::TAG_ENTRIES,
            |t| t.bytes[4] = 2,
            Error::BadEntry,
        ),
        (
            image_format::TAG_SURFACES,
            |t| t.bytes[4] = 0xff,
            Error::BadUtf8,
        ),
        (
            image_format::TAG_ANNOTATIONS,
            |t| t.bytes[0] = 0xff,
            Error::BadUtf8,
        ),
        (
            image_format::TAG_MATRIX,
            |t| t.bytes[38] = 100,
            Error::BadTable(image_format::TAG_MATRIX),
        ),
        (
            image_format::TAG_BOUNDARIES,
            |t| t.bytes[9] = 0b00,
            Error::BadTable(image_format::TAG_BOUNDARIES),
        ),
        (
            image_format::TAG_BOUNDARIES,
            |t| t.bytes[9] = 0b101,
            Error::BadTable(image_format::TAG_BOUNDARIES),
        ),
        (
            image_format::TAG_DETAIL_INDEX,
            |t| t.bytes[0] = 3,
            Error::BadTable(image_format::TAG_DETAIL_INDEX),
        ),
        (
            image_format::TAG_DETAIL_RECORDS,
            |t| t.bytes[12] = 3,
            Error::BadTable(image_format::TAG_DETAIL_RECORDS),
        ),
        (
            image_format::TAG_DETAIL_RELATIONS,
            |t| t.bytes[0] = 5,
            Error::BadTable(image_format::TAG_DETAIL_RELATIONS),
        ),
        (
            image_format::TAG_SINGLE_KANJI_READINGS,
            |t| t.bytes[0] = 0xff,
            Error::BadTable(image_format::TAG_SINGLE_KANJI_READINGS),
        ),
        (
            image_format::TAG_SINGLE_KANJI_CHARS,
            |t| t.bytes[1] = 0xd8,
            Error::BadTable(image_format::TAG_SINGLE_KANJI_CHARS),
        ),
        (
            image_format::TAG_SINGLE_KANJI_VARIANTS,
            |t| t.bytes[8] = 0,
            Error::BadTable(image_format::TAG_SINGLE_KANJI_VARIANTS),
        ),
    ];
    for (index, (tag, change, expected)) in cases.into_iter().enumerate() {
        assert_eq!(fault(&with_table(2, tag, change)), expected, "case {index}");
    }
}

#[test]
fn optional_tables_come_together_or_not_at_all() {
    let mut all = tables(2);
    all.extend(details().into_iter().take(4));
    assert_eq!(
        fault(&assemble(2, &all)),
        Error::BadTable(image_format::TAG_DETAIL_INDEX)
    );
    let mut all = tables(2);
    all.extend(single_kanji().into_iter().skip(1));
    assert_eq!(
        fault(&assemble(2, &all)),
        Error::BadTable(image_format::TAG_SINGLE_KANJI_INDEX)
    );
    let mut all = tables(1);
    all.push(table(image_format::TAG_ANNOTATION_INDEX, Vec::new(), 0));
    assert_eq!(
        fault(&assemble(1, &all)),
        Error::BadTable(image_format::TAG_ANNOTATION_INDEX)
    );
}

#[test]
fn faults_have_messages() {
    assert!(Error::BadTable(image_format::TAG_MATRIX).message().contains("MATR"));
    assert!(Error::UnsupportedVersion(7).message().contains('7'));
    let all = [
        Error::Truncated,
        Error::BadMagic,
        Error::UnsupportedVersion(3),
        Error::BadHeader,
        Error::BadDirectory,
        Error::MissingTable(image_format::TAG_NODES),
        Error::DuplicateTable(image_format::TAG_NODES),
        Error::BadTable(image_format::TAG_NODES),
        Error::BadTree,
        Error::BadEntry,
        Error::BadUtf8,
        Error::TextOverflow,
    ];
    for (index, fault) in all.iter().enumerate() {
        for other in all.iter().skip(index + 1) {
            assert_ne!(fault.message(), other.message());
        }
    }
}

#[test]
fn flags_unite() {
    let both = EntryFlags::it() | EntryFlags::prediction();
    assert_eq!(both.bits(), 3);
    assert!(both.contains(EntryFlags::it()));
    assert!(!both.contains(EntryFlags::spelling_correction()));
    assert_eq!(EntryFlags::from_bits(8), EntryFlags::non_initial());
    assert!(both.contains(EntryFlags::none()));
}
