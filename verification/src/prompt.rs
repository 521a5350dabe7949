//! Building the classification prompt.  One prompt text per request, varying
//! with the mode: filename-only, vision, or extracted-text.  Candidate folders
//! and past corrections are appended to every mode.

use vstd::prelude::*;

verus! {

/// How the classifier is asked to judge the file.
pub enum PromptMode {
    /// Judge from the file's name alone.
    FilenameOnly,
    /// Judge from the attached image's content.
    Vision,
    /// Judge primarily from this extracted text snippet.
    TextContent(String),
}

/// The given texts, one per line.
pub open spec fn joined_lines(items: Seq<Seq<char>>) -> Seq<char>
    decreases items.len(),
{
    if items.len() == 0 {
        Seq::empty()
    } else if items.len() == 1 {
        items[0]
    } else {
        joined_lines(items.drop_last()) + seq!['\n'] + items.last()
    }
}

/// Join the given texts with newlines.
pub fn join_lines(items: &Vec<String>) -> (r: String)
    ensures
        r@ == joined_lines(items.deep_view()),
{
    let ghost dv = items.deep_view();
    let mut r = String::new();
    let mut i: usize = 0;
    while i < items.len()
        invariant
            dv == items.deep_view(),
            dv.len() == items.len(),
            i <= items.len(),
            forall|k: int| 0 <= k < dv.len() ==> dv[k] == items@[k]@,
            r@ == joined_lines(dv.take(i as int)),
        decreases items.len() - i,
    {
        if i > 0 {
            r.append("\n");
        }
        r.append(items[i].as_str());
        proof {
            reveal_strlit("\n");
            assert("\n"@ =~= seq!['\n']);
            assert(dv.take(i + 1).drop_last() =~= dv.take(i as int));
            assert(dv.take(i + 1).last() == dv[i as int]);
            assert(r@ =~= joined_lines(dv.take(i + 1)));
        }
        i += 1;
    }
    proof {
        assert(dv.take(items.len() as int) =~= dv);
    }
    r
}

/// The instruction sentence that opens the prompt for this mode.
pub open spec fn mode_instruction(mode: &PromptMode) -> Seq<char> {
    match mode {
        PromptMode::Vision => "Look at the image content to understand what this file is about. Use the visual content (text, formulas, diagrams, code, lecture slides, handwritten notes) to determine the subject matter, NOT just the filename. IMPORTANT: Screenshots of lecture notes, textbook pages, slides, formulas, code, academic websites, or any educational content ARE relevant coursework material — treat them the same as a PDF or document about that subject."@,
        PromptMode::TextContent(_) => "IMPORTANT: Classify this file based PRIMARILY on the extracted text content below, NOT the filename. The filename may be generic (like 'PS2.pdf' or 'notes.pdf') but the actual content reveals the subject. Look for subject-specific keywords, course names, topics, formulas, or terminology in the extracted text to determine the correct folder."@,
        PromptMode::FilenameOnly => "Given a filename, first decide if it is educational/coursework material, then suggest the best folder."@,
    }
}

/// The extra content block for this mode: the extracted text, or nothing.
pub open spec fn mode_section(mode: &PromptMode) -> Seq<char> {
    match mode {
        PromptMode::TextContent(t) => "\n\nExtracted text content (PRIORITIZE THIS for classification):\n"@
            + t@,
        _ => Seq::empty(),
    }
}

/// The few-shot block built from past corrections, or nothing if there are
/// none.
pub open spec fn corrections_section(corrections: Seq<Seq<char>>) -> Seq<char> {
    if corrections.len() == 0 {
        Seq::empty()
    } else {
        "\n\nLearn from these past corrections by the user:\n"@ + joined_lines(corrections)
            + "\n\nUse these examples to improve your accuracy. If a similar filename appears, apply what you learned."@
    }
}

/// The full prompt text for a classification request.
pub open spec fn prompt_text(
    filename: Seq<char>,
    folders: Seq<Seq<char>>,
    corrections: Seq<Seq<char>>,
    mode: &PromptMode,
) -> Seq<char> {
    "You are a file organization assistant for a student. "@ + mode_instruction(mode)
        + "\n\nFilename: "@ + filename + mode_section(mode) + "\n\nAvailable course folders:\n"@
        + joined_lines(folders)
        + "\n\nRespond with ONLY a JSON object in this format:\n{\n  \"is_relevant\": true,\n  \"folder\": \"suggested folder path\",\n  \"confidence\": 0.95,\n  \"reasoning\": \"brief explanation\"\n}\n\nRules:\n- is_relevant: true if the file is educational material (lecture slides, notes, assignments, textbooks, academic papers, course-related documents, ChatGPT conversations about coursework, screenshots of lecture content, screenshots of formulas/equations, screenshots of code/tutorials, screenshots of academic websites or textbook pages). Set false for memes, entertainment, games, personal photos, installers, music, videos unrelated to courses, social media content, screenshots of non-academic things like social media or shopping, etc.\n- If is_relevant is false, set folder to \"\" and confidence to 0\n- If is_relevant is true and the file clearly belongs to one of the available folders, use the exact folder path from the list\n- If is_relevant is true but the file does NOT fit any of the available folders, set folder to \"__UNSORTED__\" — do NOT force-fit it into an unrelated folder\n- confidence should be 0-1 (1 = very confident)\n- Consider file extension, name patterns, and common use cases\n- Be concise in reasoning"@
        + corrections_section(corrections)
}

/// Build the classification prompt for `filename` under `mode`, listing the
/// candidate `available_folders` and quoting the `correction_history` lines as
/// learning examples.
pub fn build_prompt(
    filename: &str,
    available_folders: &Vec<String>,
    correction_history: &Vec<String>,
    mode: PromptMode,
) -> (r: String)
    ensures
        r@ == prompt_text(
            filename@,
            available_folders.deep_view(),
            correction_history.deep_view(),
            &mode,
        ),
{
    let mut r = String::new();
    r.append("You are a file organization assistant for a student. ");
    match &mode {
        PromptMode::Vision => {
            r.append(
                "Look at the image content to understand what this file is about. Use the visual content (text, formulas, diagrams, code, lecture slides, handwritten notes) to determine the subject matter, NOT just the filename. IMPORTANT: Screenshots of lecture notes, textbook pages, slides, formulas, code, academic websites, or any educational content ARE relevant coursework material — treat them the same as a PDF or document about that subject.",
            );
        },
        PromptMode::TextContent(_) => {
            r.append(
                "IMPORTANT: Classify this file based PRIMARILY on the extracted text content below, NOT the filename. The filename may be generic (like 'PS2.pdf' or 'notes.pdf') but the actual content reveals the subject. Look for subject-specific keywords, course names, topics, formulas, or terminology in the extracted text to determine the correct folder.",
            );
        },
        PromptMode::FilenameOnly => {
            r.append(
                "Given a filename, first decide if it is educational/coursework material, then suggest the best folder.",
            );
        },
    }
    r.append("\n\nFilename: ");
    r.append(filename);
    match &mode {
        PromptMode::TextContent(t) => {
            r.append("\n\nExtracted text content (PRIORITIZE THIS for classification):\n");
            r.append(t.as_str());
        },
        _ => {},
    }
    r.append("\n\nAvailable course folders:\n");
    let folder_lines = join_lines(available_folders);
    r.append(folder_lines.as_str());
    r.append(
        "\n\nRespond with ONLY a JSON object in this format:\n{\n  \"is_relevant\": true,\n  \"folder\": \"suggested folder path\",\n  \"confidence\": 0.95,\n  \"reasoning\": \"brief explanation\"\n}\n\nRules:\n- is_relevant: true if the file is educational material (lecture slides, notes, assignments, textbooks, academic papers, course-related documents, ChatGPT conversations about coursework, screenshots of lecture content, screenshots of formulas/equations, screenshots of code/tutorials, screenshots of academic websites or textbook pages). Set false for memes, entertainment, games, personal photos, installers, music, videos unrelated to courses, social media content, screenshots of non-academic things like social media or shopping, etc.\n- If is_relevant is false, set folder to \"\" and confidence to 0\n- If is_relevant is true and the file clearly belongs to one of the available folders, use the exact folder path from the list\n- If is_relevant is true but the file does NOT fit any of the available folders, set folder to \"__UNSORTED__\" — do NOT force-fit it into an unrelated folder\n- confidence should be 0-1 (1 = very confident)\n- Consider file extension, name patterns, and common use cases\n- Be concise in reasoning",
    );
    if correction_history.len() > 0 {
        r.append("\n\nLearn from these past corrections by the user:\n");
        let correction_lines = join_lines(correction_history);
        r.append(correction_lines.as_str());
        r.append(
            "\n\nUse these examples to improve your accuracy. If a similar filename appears, apply what you learned.",
        );
    }
    proof {
        assert(r@ =~= prompt_text(
            filename@,
            available_folders.deep_view(),
            correction_history.deep_view(),
            &mode,
        ));
    }
    r
}

} // verus!
