//! Unit tests of the XML transformers and the terminal layout.

use ldoce5viewer_tui::content::style::style_headword;
use ldoce5viewer_tui::content::transform::{
    style_for_tag, to_ratatui_text, transform_entry, transform_etymologies, transform_examples,
    transform_phrases, Block, Inline,
};

fn entry_xml(hwd: &str, pos: &str, def: &str, example: &str) -> Vec<u8> {
    format!(
        r#"<Entry>
  <Head>
    <HWD><BASE>{hwd}</BASE></HWD>
    <POS>{pos}</POS>
    <Audio resource="GB_HWD_PRON" topic="gb_hwd_pron/{hwd}.mp3"/>
    <Audio resource="US_HWD_PRON" topic="us_hwd_pron/{hwd}.mp3"/>
  </Head>
  <Sense>
    <DEF>{def}</DEF>
    <EXAMPLE><span class="exabullet">●</span>{example}</EXAMPLE>
  </Sense>
</Entry>"#
    )
    .into_bytes()
}

fn all_text(page: &[Block]) -> String {
    page.iter()
        .flat_map(|b| b.inlines.iter())
        .filter_map(|i| match i {
            Inline::Text(t, _) => Some(t.as_str()),
            Inline::Headword(t) => Some(t.as_str()),
            _ => None,
        })
        .collect()
}

fn rendered(page: &[Block]) -> String {
    let text = to_ratatui_text(page);
    text.lines.iter().flat_map(|l| l.spans.iter()).map(|s| s.content.as_str()).collect()
}

#[test]
fn test_transform_entry_produces_blocks() {
    let xml = entry_xml("run", "verb", "to move quickly on foot", "She ran to the door.");
    let page = transform_entry(&xml);
    assert!(!page.is_empty(), "page should not be empty");
}

#[test]
fn test_transform_entry_headword_present() {
    let xml = entry_xml("run", "verb", "to move quickly", "He runs daily.");
    let page = transform_entry(&xml);
    assert!(all_text(&page).contains("run"), "headword 'run' not found");
}

#[test]
fn test_transform_entry_audio_buttons() {
    let xml = entry_xml("able", "adjective", "having the skill", "She is able to swim.");
    let page = transform_entry(&xml);
    let audio_count = page
        .iter()
        .flat_map(|b| b.inlines.iter())
        .filter(|i| matches!(i, Inline::AudioButton { .. }))
        .count();
    assert!(audio_count >= 2, "expected at least 2 audio buttons, got {audio_count}");
}

#[test]
fn test_transform_entry_example_text() {
    let xml = entry_xml("walk", "verb", "to move on foot", "She walked to school.");
    let page = transform_entry(&xml);
    assert!(all_text(&page).contains("walked"), "example text not found");
}

#[test]
fn test_to_ratatui_text_non_empty() {
    let xml = entry_xml("test", "noun", "a procedure for evaluation", "Run a test.");
    let page = transform_entry(&xml);
    let text = to_ratatui_text(&page);
    assert!(!text.lines.is_empty());
}

#[test]
fn test_transform_examples() {
    let xml = br#"<exa-root>
          <exa-head><hwd>run</hwd><pos>verb</pos></exa-head>
          <exa-body>
            <exa>She ran fast.</exa>
            <exa>He ran away.</exa>
          </exa-body>
        </exa-root>"#;
    let page = transform_examples(xml);
    let text = all_text(&page);
    assert!(text.contains("run"));
    assert!(text.contains("ran"));
}

#[test]
fn test_transform_etymologies() {
    let xml = b"<etym>From Latin <i>currere</i>, to run.</etym>";
    let page = transform_etymologies(xml);
    assert!(all_text(&page).contains("Latin"));
}

#[test]
fn test_transform_phrases() {
    let xml = br#"<phrases>
          <phrase>
            <phrase-head><Ref topic="fs/1.2.3">at a run</Ref></phrase-head>
            <phrase-body>
              <exa>She left at a run.</exa>
            </phrase-body>
          </phrase>
        </phrases>"#;
    let page = transform_phrases(xml);
    assert!(!page.is_empty());
}

#[test]
fn test_style_for_headword_tag() {
    let s = style_for_tag("HWD", &[]);
    assert_eq!(s, style_headword());
}

#[test]
fn test_empty_xml() {
    let page = transform_entry(b"");
    let _ = page;
}

#[test]
fn test_freq_badge_rendering() {
    let xml = br#"<Entry id="e.1.1.1">
          <Head><HWD><BASE>car</BASE></HWD><FREQ>S1</FREQ><FREQ>W1</FREQ></Head>
          <Sense id="s.1.1.1.1"><DEF>a road vehicle with an engine</DEF></Sense>
        </Entry>"#;
    let page = transform_entry(xml);
    let badges: Vec<&str> = page
        .iter()
        .flat_map(|b| b.inlines.iter())
        .filter_map(|i| match i {
            Inline::Badge { text } => Some(text.as_str()),
            _ => None,
        })
        .collect();
    assert!(!badges.is_empty(), "expected Badge inlines for FREQ elements, got none");
    assert!(badges.iter().any(|b| *b == "S1"), "expected badge 'S1', got {:?}", badges);
    assert!(badges.iter().any(|b| *b == "W1"), "expected badge 'W1', got {:?}", badges);
}

#[test]
fn test_badge_ratatui_rendering() {
    let xml = br#"<Entry id="e.1.1.1">
          <Head><HWD><BASE>car</BASE></HWD><FREQ>S1</FREQ></Head>
          <Sense id="s.1.1.1.1"><DEF>a road vehicle</DEF></Sense>
        </Entry>"#;
    let page = transform_entry(xml);
    let all = rendered(&page);
    assert!(all.contains("[S1]"), "rendered text should contain '[S1]'");
}

#[test]
fn test_signpost_rendering() {
    let xml = br#"<Entry id="e.1.1.1">
          <Head><HWD><BASE>car</BASE></HWD></Head>
          <Sense id="s.1.1.1.1">
            <SIGNPOST>DRIVING</SIGNPOST>
            <DEF>to operate a car</DEF>
          </Sense>
        </Entry>"#;
    let page = transform_entry(xml);
    let signposts: Vec<&str> = page
        .iter()
        .flat_map(|b| b.inlines.iter())
        .filter_map(|i| match i {
            Inline::Signpost { text } => Some(text.as_str()),
            _ => None,
        })
        .collect();
    assert!(!signposts.is_empty(), "expected Signpost inlines for SIGNPOST elements");
    assert!(signposts.iter().any(|s| s.contains("DRIVING")), "expected signpost containing 'DRIVING', got {:?}", signposts);
}

#[test]
fn test_section_heading_rendering() {
    let xml = br#"<Entry id="e.1.1.1">
          <Head><HWD><BASE>car</BASE></HWD></Head>
          <ColloBox><HEADING>COLLOCATIONS</HEADING>
            <ColloGram><COLLOC id="c.1.1.1.1">drive a car</COLLOC></ColloGram>
          </ColloBox>
        </Entry>"#;
    let page = transform_entry(xml);
    let heading_blocks: Vec<_> = page.iter().filter(|b| b.is_heading).collect();
    assert!(!heading_blocks.is_empty(), "expected at least one is_heading block for HEADING element");
    let all = rendered(&page);
    assert!(all.contains("COLLOCATIONS"), "rendered heading bar should contain section title");
}

#[test]
fn transform_sibling_senses_share_indent() {
    let page = ldoce5viewer_tui::content::transform::transform_entry(
        b"<Entry><Sense><DEF>a</DEF></Sense><Sense><DEF>b</DEF></Sense></Entry>",
    );
    assert_eq!(page.len(), 2);
    assert_eq!(page[0].indent, 1);
    assert_eq!(page[1].indent, 1);
}
