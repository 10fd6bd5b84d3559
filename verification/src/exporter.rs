//! Exports of the movie list as CSV and as an HTML page.
use vstd::prelude::*;
use crate::text::{decimal, push_str, push_decimal, from_chars};
use crate::models::{Movie, MediaStatus, media_status_text};

verus! {

pub open spec fn opt_decimal(o: Option<i32>) -> Seq<char> {
    match o {
        Some(v) => decimal(v as int),
        None => Seq::<char>::empty(),
    }
}

pub open spec fn opt_text_or(o: Option<String>, d: Seq<char>) -> Seq<char> {
    match o {
        Some(t) => t@,
        None => d,
    }
}

/// The CSV line of a movie: id, quoted title, year, status, IMDB id, TMDB
/// id, rating; missing values empty.
pub open spec fn csv_line(m: Movie) -> Seq<char> {
    decimal(m.id.0 as int) + ",\""@ + m.title@ + "\","@ + opt_decimal(m.year) + ","@
        + media_status_text(m.status) + ","@ + opt_text_or(m.imdb_id, Seq::<char>::empty()) + ","@
        + opt_decimal(m.tmdb_id) + ","@ + opt_text_or(m.rating, Seq::<char>::empty()) + "\n"@
}

pub open spec fn csv_lines(ms: Seq<Movie>) -> Seq<char>
    decreases ms.len(),
{
    if ms.len() == 0 {
        Seq::<char>::empty()
    } else {
        csv_lines(ms.drop_last()) + csv_line(ms.last())
    }
}

pub open spec fn csv_header() -> Seq<char> {
    "ID,Title,Year,Status,IMDB ID,TMDB ID,Rating\n"@
}

pub open spec fn html_head() -> Seq<char> {
    "<!DOCTYPE html>\n<html>\n<head>\n    <meta charset=\"UTF-8\">\n    <title>Library Export</title>\n    <style>\n        body { font-family: sans-serif; background: #1a1a2e; color: #e0e0e0; padding: 20px; }\n        table { width: 100%; border-collapse: collapse; background: #16213e; }\n        th, td { padding: 12px; text-align: left; border-bottom: 1px solid #0f3460; }\n        th { background: #6c63ff; color: white; }\n        .matched { color: #4caf50; }\n        .unmatched { color: #f44336; }\n    </style>\n</head>\n<body>\n    <h1>\u{1f3ac} Media Manager Library</h1>\n    <table>\n        <thead>\n            <tr><th>Title</th><th>Year</th><th>Rating</th><th>Status</th></tr>\n        </thead>\n        <tbody>\n"@
}

/// The table row of a movie; a missing year or rating shows as a dash.
pub open spec fn html_row(m: Movie) -> Seq<char> {
    "<tr><td><strong>"@ + m.title@ + "</strong></td><td>"@ + (match m.year {
        Some(y) => decimal(y as int),
        None => "\u{2014}"@,
    }) + "</td><td>"@ + opt_text_or(m.rating, "\u{2014}"@) + "</td><td><span class=\""@
        + media_status_text(m.status) + "\">"@ + media_status_text(m.status)
        + "</span></td></tr>"@
}

pub open spec fn html_rows(ms: Seq<Movie>) -> Seq<char>
    decreases ms.len(),
{
    if ms.len() == 0 {
        Seq::<char>::empty()
    } else {
        html_rows(ms.drop_last()) + html_row(ms.last())
    }
}

/// Exports of the movie list.
pub struct Exporter;

fn push_opt_decimal(out: &mut Vec<char>, o: Option<i32>)
    ensures
        final(out)@ == old(out)@ + opt_decimal(o),
{
    match o {
        Some(v) => push_decimal(out, v as i64),
        None => {
            assert(old(out)@ + Seq::<char>::empty() =~= old(out)@);
        },
    }
}

fn push_opt_text(out: &mut Vec<char>, o: &Option<String>, d: &str)
    ensures
        final(out)@ == old(out)@ + opt_text_or(*o, d@),
{
    match o {
        Some(t) => push_str(out, t.as_str()),
        None => push_str(out, d),
    }
}

impl Exporter {
    /// The movies as CSV: a header line, then one line per movie.
    pub fn to_csv(movies: &[Movie]) -> (r: String)
        ensures
            r@ == csv_header() + csv_lines(movies@),
    {
        let mut out: Vec<char> = Vec::new();
        push_str(&mut out, "ID,Title,Year,Status,IMDB ID,TMDB ID,Rating\n");
        let mut i: usize = 0;
        while i < movies.len()
            invariant
                i <= movies.len(),
                out@ == csv_header() + csv_lines(movies@.subrange(0, i as int)),
            decreases movies.len() - i,
        {
            let m = &movies[i];
            let ghost before = out@;
            push_decimal(&mut out, m.id.0);
            push_str(&mut out, ",\"");
            push_str(&mut out, m.title.as_str());
            push_str(&mut out, "\",");
            push_opt_decimal(&mut out, m.year);
            push_str(&mut out, ",");
            push_str(&mut out, m.status.as_str());
            push_str(&mut out, ",");
            push_opt_text(&mut out, &m.imdb_id, "");
            push_str(&mut out, ",");
            push_opt_decimal(&mut out, m.tmdb_id);
            push_str(&mut out, ",");
            push_opt_text(&mut out, &m.rating, "");
            push_str(&mut out, "\n");
            proof {
                reveal_strlit("");
                assert(""@ =~= Seq::<char>::empty());
                assert(out@ =~= before + csv_line(*m));
                assert(movies@.subrange(0, i + 1).drop_last() =~= movies@.subrange(0, i as int));
            }
            i = i + 1;
        }
        assert(movies@.subrange(0, movies.len() as int) =~= movies@);
        from_chars(&out)
    }

    /// The movies as an HTML page with one table row per movie.
    pub fn to_html(movies: &[Movie]) -> (r: String)
        ensures
            r@ == html_head() + html_rows(movies@) + "</tbody></table></body></html>"@,
    {
        let mut out: Vec<char> = Vec::new();
        push_str(
            &mut out,
            "<!DOCTYPE html>\n<html>\n<head>\n    <meta charset=\"UTF-8\">\n    <title>Library Export</title>\n    <style>\n        body { font-family: sans-serif; background: #1a1a2e; color: #e0e0e0; padding: 20px; }\n        table { width: 100%; border-collapse: collapse; background: #16213e; }\n        th, td { padding: 12px; text-align: left; border-bottom: 1px solid #0f3460; }\n        th { background: #6c63ff; color: white; }\n        .matched { color: #4caf50; }\n        .unmatched { color: #f44336; }\n    </style>\n</head>\n<body>\n    <h1>\u{1f3ac} Media Manager Library</h1>\n    <table>\n        <thead>\n            <tr><th>Title</th><th>Year</th><th>Rating</th><th>Status</th></tr>\n        </thead>\n        <tbody>\n",
        );
        let mut i: usize = 0;
        while i < movies.len()
            invariant
                i <= movies.len(),
                out@ == html_head() + html_rows(movies@.subrange(0, i as int)),
            decreases movies.len() - i,
        {
            let m = &movies[i];
            let ghost before = out@;
            push_str(&mut out, "<tr><td><strong>");
            push_str(&mut out, m.title.as_str());
            push_str(&mut out, "</strong></td><td>");
            match m.year {
                Some(y) => push_decimal(&mut out, y as i64),
                None => push_str(&mut out, "\u{2014}"),
            }
            push_str(&mut out, "</td><td>");
            push_opt_text(&mut out, &m.rating, "\u{2014}");
            push_str(&mut out, "</td><td><span class=\"");
            push_str(&mut out, m.status.as_str());
            push_str(&mut out, "\">");
            push_str(&mut out, m.status.as_str());
            push_str(&mut out, "</span></td></tr>");
            proof {
                assert(out@ =~= before + html_row(*m));
                assert(movies@.subrange(0, i + 1).drop_last() =~= movies@.subrange(0, i as int));
            }
            i = i + 1;
        }
        assert(movies@.subrange(0, movies.len() as int) =~= movies@);
        push_str(&mut out, "</tbody></table></body></html>");
        from_chars(&out)
    }
}

} // verus!
