/* Makes up the messages that plugins log, and hands them on as text. */
#include <stdarg.h>
#include <stdint.h>
#include <stdio.h>

extern void lv2_log_shim_callback(void *handle, uint32_t type, const char *msg);

int lv2_log_vprintf(void *handle, uint32_t type, const char *fmt, va_list args)
{
    char text[1024];
    int len = vsnprintf(text, sizeof text, fmt, args);
    if (len >= 0)
        lv2_log_shim_callback(handle, type, text);
    return len;
}

int lv2_log_printf(void *handle, uint32_t type, const char *fmt, ...)
{
    va_list args;
    va_start(args, fmt);
    int len = lv2_log_vprintf(handle, type, fmt, args);
    va_end(args);
    return len;
}
