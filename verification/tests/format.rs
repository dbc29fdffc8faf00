use markdown_ui::format::ExportFormat;

#[test]
fn format_names_are_read_in_any_case() {
    for token in ["HTML", "html", "Html"] {
        assert_eq!(ExportFormat::from_str(token), Ok(ExportFormat::Html));
    }
    for token in ["PDF", "pdf", "Pdf", "pDf"] {
        assert_eq!(ExportFormat::from_str(token), Ok(ExportFormat::Pdf));
    }
}

#[test]
fn unknown_format_names_the_supported_ones() {
    assert_eq!(
        ExportFormat::from_str("docx"),
        Err("Unsupported format: docx. Supported: html, pdf".to_string())
    );
    assert_eq!(
        ExportFormat::from_str("xml"),
        Err("Unsupported format: xml. Supported: html, pdf".to_string())
    );
}

#[test]
fn unknown_format_is_reported_as_it_was_given() {
    assert_eq!(
        ExportFormat::from_str("DocX "),
        Err("Unsupported format: DocX . Supported: html, pdf".to_string())
    );
    assert_eq!(
        ExportFormat::from_str(""),
        Err("Unsupported format: . Supported: html, pdf".to_string())
    );
    assert_eq!(
        ExportFormat::from_str(" html"),
        Err("Unsupported format:  html. Supported: html, pdf".to_string())
    );
}

#[test]
fn each_format_has_its_extension() {
    assert_eq!(ExportFormat::Html.extension(), "html");
    assert_eq!(ExportFormat::Pdf.extension(), "pdf");
}
