use mdbook_plugins::renderers::pdf_names::{dest_page_exec, resolve_dests, PdfObj};

fn name(s: &str) -> PdfObj {
    PdfObj::Name(s.as_bytes().to_vec())
}

fn page_dest(n: u32) -> PdfObj {
    PdfObj::Array(vec![PdfObj::Ref(n, 0, None), name("FitH"), PdfObj::Other])
}

fn dict(entries: Vec<(&str, PdfObj)>) -> PdfObj {
    PdfObj::Dict(entries.into_iter().map(|(k, v)| (k.as_bytes().to_vec(), v)).collect())
}

#[test]
fn destinations_of_dests_dictionary_and_name_tree() {
    let leaf = dict(vec![(
        "Names",
        PdfObj::Array(vec![
            PdfObj::Str(b"intro".to_vec()),
            page_dest(5),
            PdfObj::Str(b"%E5%BC%95".to_vec()),
            dict(vec![("D", page_dest(6))]),
            PdfObj::Str(b"odd".to_vec()),
        ]),
    )]);
    let tree = dict(vec![("Kids", PdfObj::Array(vec![PdfObj::Ref(9, 0, Some(Box::new(leaf)))]))]);
    let catalog = vec![
        (b"Dests".to_vec(), dict(vec![("a", page_dest(3)), ("b", PdfObj::Other)])),
        (b"Names".to_vec(), dict(vec![("Dests", tree)])),
    ];
    assert_eq!(
        resolve_dests(&catalog),
        vec![("a".to_string(), 3, 0), ("intro".to_string(), 5, 0), ("引".to_string(), 6, 0)]
    );
}

#[test]
fn missing_entries_give_no_destination() {
    assert!(resolve_dests(&vec![]).is_empty());
    assert_eq!(dest_page_exec(&PdfObj::Ref(1, 0, None)), None);
    assert_eq!(dest_page_exec(&PdfObj::Array(vec![])), None);
    assert_eq!(dest_page_exec(&PdfObj::Ref(2, 0, Some(Box::new(page_dest(4))))), Some((4, 0)));
}
