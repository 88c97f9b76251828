use vstd::prelude::*;
use vstd::string::StringExecFns;
use crate::text::{decimal, push_decimal};

verus! {

/// Counters that the crawler's components keep for the periodic report.
///
/// Every counter but `urlreservoir_size` counts events and wraps around on
/// overflow; `urlreservoir_size` holds the reservoir's length as last seen.
pub struct Stats {
    pub urlreservoir_size: usize,
    pub urlreservoir_add_calls: usize,
    pub urlreservoir_add_addedurls: usize,
    pub urlreservoir_getuu_calls: usize,
    pub urlreservoir_getuu_locked: usize,
    pub urlreservoir_getuu_emptyqueue: usize,
    pub urlreservoir_getuu_illformat: usize,
    pub urlreservoir_getuu_success: usize,
    pub client_work_sent: usize,
    pub client_hyper_error: usize,
    pub client_timeout: usize,
    pub client_timeout_error: usize,
    pub client_too_large_error: usize,
    pub client_unwanted_file: usize,
    pub worker_got_html: usize,
    pub worker_got_file: usize,
    pub worker_got_repeated_file: usize,
    pub worker_write_file_error: usize,
}

impl Stats {
    /// Every counter is zero.
    pub open spec fn is_zero(&self) -> bool {
        &&& self.urlreservoir_size == 0
        &&& self.urlreservoir_add_calls == 0
        &&& self.urlreservoir_add_addedurls == 0
        &&& self.urlreservoir_getuu_calls == 0
        &&& self.urlreservoir_getuu_locked == 0
        &&& self.urlreservoir_getuu_emptyqueue == 0
        &&& self.urlreservoir_getuu_illformat == 0
        &&& self.urlreservoir_getuu_success == 0
        &&& self.client_work_sent == 0
        &&& self.client_hyper_error == 0
        &&& self.client_timeout == 0
        &&& self.client_timeout_error == 0
        &&& self.client_too_large_error == 0
        &&& self.client_unwanted_file == 0
        &&& self.worker_got_html == 0
        &&& self.worker_got_file == 0
        &&& self.worker_got_repeated_file == 0
        &&& self.worker_write_file_error == 0
    }

    /// Fresh statistics: every counter starts at zero.
    pub fn new() -> (stats: Stats)
        ensures
            stats.is_zero(),
    {
        Stats {
            urlreservoir_size: 0,
            urlreservoir_add_calls: 0,
            urlreservoir_add_addedurls: 0,
            urlreservoir_getuu_calls: 0,
            urlreservoir_getuu_locked: 0,
            urlreservoir_getuu_emptyqueue: 0,
            urlreservoir_getuu_illformat: 0,
            urlreservoir_getuu_success: 0,
            client_work_sent: 0,
            client_hyper_error: 0,
            client_timeout: 0,
            client_timeout_error: 0,
            client_too_large_error: 0,
            client_unwanted_file: 0,
            worker_got_html: 0,
            worker_got_file: 0,
            worker_got_repeated_file: 0,
            worker_write_file_error: 0,
        }
    }
}

/// A counter after one more event; counters wrap around on overflow.
pub open spec fn bumped(counter: usize) -> usize {
    counter.wrapping_add(1)
}

/// A counter after `n` more events.
pub open spec fn raised(counter: usize, n: usize) -> usize {
    counter.wrapping_add(n)
}

/// One line of the report: a label, a number in decimal, a line break.
pub open spec fn report_line(label: Seq<char>, n: nat) -> Seq<char> {
    label + decimal(n) + "\n"@
}

fn push_line(out: &mut String, label: &str, n: usize)
    ensures
        final(out)@ == old(out)@ + report_line(label@, n as nat),
{
    out.append(label);
    push_decimal(out, n);
    out.append("\n");
    assert(out@ =~= old(out)@ + report_line(label@, n as nat));
}

impl Stats {
    /// The text of the periodic report on these counters.
    pub open spec fn report_text(&self) -> Seq<char> {
        "UrlReservoirAdd\n"@
        + report_line("----reservoir size: "@, self.urlreservoir_size as nat)
        + report_line("----add_urls calls: "@, self.urlreservoir_add_calls as nat)
        + report_line("----urls added: "@, self.urlreservoir_add_addedurls as nat)
        + "UrlReservoirGetuu\n"@
        + report_line("----calls: "@, self.urlreservoir_getuu_calls as nat)
        + report_line("----error locked: "@, self.urlreservoir_getuu_locked as nat)
        + report_line("----error emptyqueue: "@, self.urlreservoir_getuu_emptyqueue as nat)
        + report_line("----error illformat: "@, self.urlreservoir_getuu_illformat as nat)
        + report_line("----success: "@, self.urlreservoir_getuu_success as nat)
        + "Client\n"@
        + report_line("----work sent: "@, self.client_work_sent as nat)
        + report_line("----hyper error: "@, self.client_hyper_error as nat)
        + report_line("----timeout: "@, self.client_timeout as nat)
        + report_line("----timeout error: "@, self.client_timeout_error as nat)
        + report_line("----too large error: "@, self.client_too_large_error as nat)
        + report_line("----unwanted file: "@, self.client_unwanted_file as nat)
        + "Worker\n"@
        + report_line("----got total: "@, (self.worker_got_html + self.worker_got_file) as nat)
        + report_line("----got html: "@, self.worker_got_html as nat)
        + report_line("----got file: "@, self.worker_got_file as nat)
        + report_line("----got repeated file: "@, self.worker_got_repeated_file as nat)
        + report_line("----got write file error: "@, self.worker_write_file_error as nat)
    }

    /// Renders the counters as the multi-line report that the reporter prints.
    /// The worker's total is the sum of its HTML and file counters, which must
    /// fit in a `usize`.
    pub fn report(&self) -> (text: String)
        requires
            self.worker_got_html + self.worker_got_file <= usize::MAX,
        ensures
            text@ == self.report_text(),
    {
        let mut out = String::new();
        out.append("UrlReservoirAdd\n");
        push_line(&mut out, "----reservoir size: ", self.urlreservoir_size);
        push_line(&mut out, "----add_urls calls: ", self.urlreservoir_add_calls);
        push_line(&mut out, "----urls added: ", self.urlreservoir_add_addedurls);
        out.append("UrlReservoirGetuu\n");
        push_line(&mut out, "----calls: ", self.urlreservoir_getuu_calls);
        push_line(&mut out, "----error locked: ", self.urlreservoir_getuu_locked);
        push_line(&mut out, "----error emptyqueue: ", self.urlreservoir_getuu_emptyqueue);
        push_line(&mut out, "----error illformat: ", self.urlreservoir_getuu_illformat);
        push_line(&mut out, "----success: ", self.urlreservoir_getuu_success);
        out.append("Client\n");
        push_line(&mut out, "----work sent: ", self.client_work_sent);
        push_line(&mut out, "----hyper error: ", self.client_hyper_error);
        push_line(&mut out, "----timeout: ", self.client_timeout);
        push_line(&mut out, "----timeout error: ", self.client_timeout_error);
        push_line(&mut out, "----too large error: ", self.client_too_large_error);
        push_line(&mut out, "----unwanted file: ", self.client_unwanted_file);
        out.append("Worker\n");
        push_line(&mut out, "----got total: ", self.worker_got_html + self.worker_got_file);
        push_line(&mut out, "----got html: ", self.worker_got_html);
        push_line(&mut out, "----got file: ", self.worker_got_file);
        push_line(&mut out, "----got repeated file: ", self.worker_got_repeated_file);
        push_line(&mut out, "----got write file error: ", self.worker_write_file_error);
        assert(out@ =~= self.report_text());
        out
    }

    /// The report as the reporter prints it: a numbered heading, the report
    /// and a blank line.
    pub open spec fn numbered_report_text(&self, number: nat) -> Seq<char> {
        "Report number "@ + decimal(number) + ":\n"@ + self.report_text() + "\n\n"@
    }

    /// Renders the report under the heading with its `number`.
    pub fn numbered_report(&self, number: usize) -> (text: String)
        requires
            self.worker_got_html + self.worker_got_file <= usize::MAX,
        ensures
            text@ == self.numbered_report_text(number as nat),
    {
        let mut out = String::new();
        out.append("Report number ");
        push_decimal(&mut out, number);
        out.append(":\n");
        let body = self.report();
        out.append(body.as_str());
        out.append("\n\n");
        assert(out@ =~= self.numbered_report_text(number as nat));
        out
    }
}

} // verus!
